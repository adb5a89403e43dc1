//! The song timeline: decoded MIDI events in, chord groups out.
//!
//! A decoder outside the library turns a Standard MIDI File into the plain
//! event stream modelled by [`SongEvent`].  [`Song::build`] folds that stream
//! through per-channel accumulators (ticks and microseconds under the active
//! tempo), pairs note-on with note-off events most-recent-first, and groups
//! the resulting note blocks by their onset tick into the immutable timeline
//! that rendering and the practice state machine query.

use vstd::prelude::*;
use vstd::seq_lib::*;
use vstd::multiset::Multiset;
use crate::keys::{is_valid_key, spec_note_of, spec_octave_of, note_of, octave_of};

verus! {

/// Tempo assumed until the first tempo event: 120 beats per minute,
/// written as microseconds per quarter note.
pub const DEFAULT_TEMPO: u32 = 500_000;

/// Ticks per quarter note assumed when the header gives none (or zero).
pub const DEFAULT_TPQN: u32 = 48;

/// How many MIDI channels a stream can address.
pub const CHANNEL_COUNT: usize = 16;

/// A channel-voice message, reduced to what the timeline reads.
///
/// Aftertouch, control, program, channel-pressure and pitch-bend messages
/// advance the channel clocks but build no note blocks; they all arrive as
/// `Other`.
#[derive(Clone, Copy, Debug)]
pub enum VoiceKind {
    NoteOn { key: u8 },
    NoteOff { key: u8 },
    Other,
}

/// The payload of one track event.
#[derive(Clone, Copy, Debug)]
pub enum TrackPayload {
    /// A channel-voice message.
    Voice { channel: u8, kind: VoiceKind },
    /// A tempo meta event; wins from this point forward, for all channels.
    Tempo { micros_per_quarter_note: u32 },
    /// Any other meta event (time signature and the rest); ignored.
    OtherMeta,
    /// A system-exclusive message; ignored.
    SysEx,
}

/// One event of the decoded stream, in file order.
#[derive(Clone, Copy, Debug)]
pub enum SongEvent {
    /// The file header; `None` when it carries no tick resolution.
    Header { ticks_per_quarter_note: Option<u16> },
    /// The start of a track chunk; ignored.
    TrackStart,
    /// A track event: a tick delta and its payload.
    TrackEvent { delta_ticks: u32, payload: TrackPayload },
}

/// A decoded event is well formed when its channel and key fit the MIDI
/// data model (channel below 16, key byte below 128).
pub open spec fn event_wf(ev: SongEvent) -> bool {
    match ev {
        SongEvent::TrackEvent { payload: TrackPayload::Voice { channel, kind }, .. } => {
            channel < CHANNEL_COUNT && match kind {
                VoiceKind::NoteOn { key } => is_valid_key(key),
                VoiceKind::NoteOff { key } => is_valid_key(key),
                VoiceKind::Other => true,
            }
        },
        _ => true,
    }
}

/// Every event of the stream is well formed.
pub open spec fn events_wf(events: Seq<SongEvent>) -> bool {
    forall|i: int| 0 <= i < events.len() ==> event_wf(#[trigger] events[i])
}

/// One sounding note on the timeline.
///
/// Opened by a note-on; the stop fields stay `None` until a matching
/// note-off arrives, and remain `None` forever for a hanging note.
#[derive(Clone, Copy, Debug)]
pub struct NoteBlock {
    /// Octave of the key, derived from the key byte (middle C sits in 4).
    pub octave: i8,
    /// Pitch class of the key, derived from the key byte (0 = C .. 11 = B).
    pub note: u8,
    /// The key byte itself: the note's identity.
    pub key: u8,
    /// Channel ticks accumulated when the note started.
    pub start_delta: u64,
    /// Channel ticks accumulated when the matching note-off arrived.
    pub stop_delta: Option<u64>,
    /// Channel microseconds accumulated when the note started.
    pub start_time: u64,
    /// Channel microseconds accumulated when the matching note-off arrived.
    pub stop_time: Option<u64>,
    /// The channel the note sounded on.
    pub channel_number: u32,
}

impl NoteBlock {
    /// Internal consistency of one block: derived fields match the key,
    /// the stop fields are set together, and a closed note never stops
    /// before it starts.
    pub open spec fn wf(self) -> bool {
        &&& is_valid_key(self.key)
        &&& self.note == spec_note_of(self.key)
        &&& self.octave == spec_octave_of(self.key)
        &&& self.channel_number < CHANNEL_COUNT
        &&& self.stop_delta is Some <==> self.stop_time is Some
        &&& (self.stop_delta is Some ==> self.start_delta <= self.stop_delta.unwrap())
        &&& (self.stop_time is Some ==> self.start_time <= self.stop_time.unwrap())
    }

    /// True of a block still waiting for its note-off.
    pub open spec fn is_open(self) -> bool {
        self.stop_delta is None
    }
}

/// Running accumulator state of one channel while a stream is folded.
pub struct Channel {
    /// Ticks accumulated over this channel's voice events.
    pub current_delta: u64,
    /// Microseconds accumulated over this channel's voice events.
    pub current_time: u64,
    /// The channel's note blocks, in arrival order.
    pub note_blocks: Vec<NoteBlock>,
}

/// Mathematical image of one [`Channel`].
pub struct ChannelModel {
    pub current_delta: u64,
    pub current_time: u64,
    pub note_blocks: Seq<NoteBlock>,
}

/// Mathematical state of the fold over the event stream: the active tempo,
/// the tick resolution, and the sixteen channel accumulators.
pub struct BuildModel {
    /// Microseconds per quarter note currently in effect.
    pub tempo: u32,
    /// Ticks per quarter note; always positive.
    pub tpqn: u32,
    /// One accumulator per channel, indexed by channel number.
    pub channels: Seq<ChannelModel>,
}

/// The state before any event: default tempo and resolution, all channels
/// at zero with no blocks.
pub open spec fn init_model() -> BuildModel {
    BuildModel {
        tempo: DEFAULT_TEMPO,
        tpqn: DEFAULT_TPQN,
        channels: Seq::new(
            CHANNEL_COUNT as nat,
            |i: int| ChannelModel { current_delta: 0, current_time: 0, note_blocks: Seq::empty() },
        ),
    }
}

/// Addition on `u64` that stops at the top instead of wrapping.
pub open spec fn sat_add_u64(a: u64, b: int) -> u64 {
    if a + b > u64::MAX {
        u64::MAX
    } else {
        (a + b) as u64
    }
}

/// Microseconds spanned by `dt` ticks under the given tempo: `dt`
/// times the tempo, divided by the tick resolution, truncated.
pub open spec fn tick_micros(dt: u32, tempo: u32, tpqn: u32) -> int {
    (dt * tempo) / (tpqn as int)
}

/// The tick resolution a header establishes: the value it carries, or the
/// default when it carries none or zero (zero must never divide).
pub open spec fn normalize_tpqn(t: Option<u16>) -> u32 {
    match t {
        Option::Some(n) => if n == 0 { DEFAULT_TPQN } else { n as u32 },
        Option::None => DEFAULT_TPQN,
    }
}

/// The block a note-on opens.
pub open spec fn open_block(channel: u8, key: u8, delta: u64, time: u64) -> NoteBlock {
    NoteBlock {
        octave: spec_octave_of(key),
        note: spec_note_of(key),
        key: key,
        start_delta: delta,
        stop_delta: Option::None,
        start_time: time,
        stop_time: Option::None,
        channel_number: channel as u32,
    }
}

/// `b` closed at the given tick and time.
pub open spec fn close_block(b: NoteBlock, delta: u64, time: u64) -> NoteBlock {
    NoteBlock { stop_delta: Option::Some(delta), stop_time: Option::Some(time), ..b }
}

/// True of a block a note-off for `key` closes: still open, same key.
pub open spec fn open_match(b: NoteBlock, key: u8) -> bool {
    b.is_open() && b.key == key
}

/// Index of the most recently added block a note-off for `key` closes,
/// or -1 when no block is open on that key.
pub open spec fn last_open_match(blocks: Seq<NoteBlock>, key: u8) -> int
    decreases blocks.len(),
{
    if blocks.len() == 0 {
        -1
    } else if open_match(blocks.last(), key) {
        blocks.len() - 1
    } else {
        last_open_match(blocks.drop_last(), key)
    }
}

/// One voice event folded into its channel: both clocks advance by the
/// event's delta, then a note-on opens a block and a note-off closes the
/// most recent open block of its key (none open: dropped silently).
pub open spec fn channel_voice_step(
    ch: ChannelModel,
    dt: u32,
    tempo: u32,
    tpqn: u32,
    channel: u8,
    kind: VoiceKind,
) -> ChannelModel {
    let delta2 = sat_add_u64(ch.current_delta, dt as int);
    let time2 = sat_add_u64(ch.current_time, tick_micros(dt, tempo, tpqn));
    let blocks2 = match kind {
        VoiceKind::NoteOn { key } => ch.note_blocks.push(open_block(channel, key, delta2, time2)),
        VoiceKind::NoteOff { key } => {
            let i = last_open_match(ch.note_blocks, key);
            if i >= 0 {
                ch.note_blocks.update(i, close_block(ch.note_blocks[i], delta2, time2))
            } else {
                ch.note_blocks
            }
        },
        VoiceKind::Other => ch.note_blocks,
    };
    ChannelModel { current_delta: delta2, current_time: time2, note_blocks: blocks2 }
}

/// One event folded into the build state.  A header fixes the tick
/// resolution, a tempo event replaces the tempo for everything processed
/// afterwards, a voice event advances its channel, and the rest is ignored.
pub open spec fn model_step(m: BuildModel, ev: SongEvent) -> BuildModel {
    match ev {
        SongEvent::Header { ticks_per_quarter_note } => BuildModel {
            tpqn: normalize_tpqn(ticks_per_quarter_note),
            ..m
        },
        SongEvent::TrackStart => m,
        SongEvent::TrackEvent { delta_ticks, payload } => match payload {
            TrackPayload::Voice { channel, kind } => {
                if channel < CHANNEL_COUNT {
                    BuildModel {
                        channels: m.channels.update(
                            channel as int,
                            channel_voice_step(
                                m.channels[channel as int],
                                delta_ticks,
                                m.tempo,
                                m.tpqn,
                                channel,
                                kind,
                            ),
                        ),
                        ..m
                    }
                } else {
                    m
                }
            },
            TrackPayload::Tempo { micros_per_quarter_note } => BuildModel {
                tempo: micros_per_quarter_note,
                ..m
            },
            TrackPayload::OtherMeta => m,
            TrackPayload::SysEx => m,
        },
    }
}

/// The build state after folding a whole stream, left to right.
pub open spec fn model_after(events: Seq<SongEvent>) -> BuildModel
    decreases events.len(),
{
    if events.len() == 0 {
        init_model()
    } else {
        model_step(model_after(events.drop_last()), events.last())
    }
}

/// `last_open_match` names the greatest index whose block is open on `key`,
/// and -1 exactly when there is none.
pub proof fn lemma_last_open_match_props(blocks: Seq<NoteBlock>, key: u8)
    ensures
        -1 <= last_open_match(blocks, key) < blocks.len(),
        last_open_match(blocks, key) >= 0 ==> open_match(blocks[last_open_match(blocks, key)], key),
        forall|j: int|
            last_open_match(blocks, key) < j < blocks.len() ==> !open_match(
                #[trigger] blocks[j],
                key,
            ),
    decreases blocks.len(),
{
    if blocks.len() > 0 && !open_match(blocks.last(), key) {
        lemma_last_open_match_props(blocks.drop_last(), key);
        assert(forall|j: int|
            0 <= j < blocks.len() - 1 ==> #[trigger] blocks[j] == blocks.drop_last()[j]);
    }
}

/// What the fold keeps true of one channel: every block is well formed,
/// carries this channel's number, and no clock of a block is ahead of the
/// channel's running clocks.
pub open spec fn channel_model_wf(ch: ChannelModel, c: int) -> bool {
    forall|i: int| 0 <= i < ch.note_blocks.len() ==> {
        let b = #[trigger] ch.note_blocks[i];
        &&& b.wf()
        &&& b.channel_number == c
        &&& b.start_delta <= ch.current_delta
        &&& b.start_time <= ch.current_time
        &&& (b.stop_delta is Some ==> b.stop_delta.unwrap() <= ch.current_delta)
        &&& (b.stop_time is Some ==> b.stop_time.unwrap() <= ch.current_time)
    }
}

/// What the fold keeps true overall: a positive tick resolution and sixteen
/// well-formed channels.
pub open spec fn model_wf(m: BuildModel) -> bool {
    &&& m.tpqn > 0
    &&& m.channels.len() == CHANNEL_COUNT
    &&& forall|c: int| 0 <= c < CHANNEL_COUNT ==> channel_model_wf(#[trigger] m.channels[c], c)
}

/// Ticks never span a negative stretch of time.
pub proof fn lemma_tick_micros_nonneg(dt: u32, tempo: u32, tpqn: u32)
    requires
        tpqn > 0,
    ensures
        tick_micros(dt, tempo, tpqn) >= 0,
{
    assert(dt * tempo >= 0) by (nonlinear_arith);
}

/// Saturating addition of a nonnegative amount never shrinks the sum.
pub proof fn lemma_sat_add_u64_monotone(a: u64, b: int)
    requires
        b >= 0,
    ensures
        a <= sat_add_u64(a, b),
{
}

/// One step of the fold keeps the state well formed.
pub proof fn lemma_model_step_wf(m: BuildModel, ev: SongEvent)
    requires
        model_wf(m),
        event_wf(ev),
    ensures
        model_wf(model_step(m, ev)),
{
    match ev {
        SongEvent::TrackEvent {
            delta_ticks,
            payload: TrackPayload::Voice { channel, kind },
        } => {
            let c = channel as int;
            let ch = m.channels[c];
            let ch2 = channel_voice_step(ch, delta_ticks, m.tempo, m.tpqn, channel, kind);
            lemma_tick_micros_nonneg(delta_ticks, m.tempo, m.tpqn);
            lemma_sat_add_u64_monotone(ch.current_delta, delta_ticks as int);
            lemma_sat_add_u64_monotone(ch.current_time, tick_micros(delta_ticks, m.tempo, m.tpqn));
            match kind {
                VoiceKind::NoteOn { key } => {
                    assert(channel_model_wf(ch2, c));
                },
                VoiceKind::NoteOff { key } => {
                    lemma_last_open_match_props(ch.note_blocks, key);
                    assert(channel_model_wf(ch2, c));
                },
                VoiceKind::Other => {
                    assert(channel_model_wf(ch2, c));
                },
            }
            assert(forall|d: int|
                0 <= d < CHANNEL_COUNT && d != c ==> channel_model_wf(
                    #[trigger] model_step(m, ev).channels[d],
                    d,
                ));
        },
        _ => {},
    }
}

/// The fold of a well-formed stream is well formed at every point.
pub proof fn lemma_model_after_wf(events: Seq<SongEvent>)
    requires
        events_wf(events),
    ensures
        model_wf(model_after(events)),
    decreases events.len(),
{
    if events.len() == 0 {
        assert(model_wf(init_model()));
    } else {
        assert(events_wf(events.drop_last())) by {
            assert(forall|i: int|
                0 <= i < events.len() - 1 ==> #[trigger] events.drop_last()[i] == events[i]);
        }
        lemma_model_after_wf(events.drop_last());
        lemma_model_step_wf(model_after(events.drop_last()), events.last());
    }
}

impl Channel {
    /// The mathematical image of this accumulator.
    pub open spec fn model(self) -> ChannelModel {
        ChannelModel {
            current_delta: self.current_delta,
            current_time: self.current_time,
            note_blocks: self.note_blocks@,
        }
    }

    /// A fresh accumulator: both clocks at zero, no blocks.
    pub fn new() -> (ch: Channel)
        ensures
            ch.current_delta == 0,
            ch.current_time == 0,
            ch.note_blocks@ == Seq::<NoteBlock>::empty(),
    {
        Channel { current_delta: 0, current_time: 0, note_blocks: Vec::new() }
    }

    /// Advance both channel clocks by one event's tick delta: the tick
    /// clock by the delta itself, the time clock by the microseconds the
    /// delta spans under the active tempo, both saturating at the top.
    pub fn advance(&mut self, dt: u32, tempo: u32, tpqn: u32)
        requires
            tpqn > 0,
        ensures
            final(self).current_delta == sat_add_u64(old(self).current_delta, dt as int),
            final(self).current_time == sat_add_u64(
                old(self).current_time,
                tick_micros(dt, tempo, tpqn),
            ),
            final(self).note_blocks@ == old(self).note_blocks@,
    {
        assert((dt as int) * (tempo as int) <= (u32::MAX as int) * (u32::MAX as int))
            by (nonlinear_arith)
            requires
                dt <= u32::MAX,
                tempo <= u32::MAX,
        ;
        let prod: u64 = (dt as u64) * (tempo as u64);
        let inc: u64 = prod / (tpqn as u64);
        self.current_delta = if self.current_delta <= u64::MAX - (dt as u64) {
            self.current_delta + (dt as u64)
        } else {
            u64::MAX
        };
        self.current_time = if self.current_time <= u64::MAX - inc {
            self.current_time + inc
        } else {
            u64::MAX
        };
    }

    /// Record a note-on: append a fresh open block stamped with the
    /// channel's current clocks.
    pub fn note_on(&mut self, channel_number: u8, key: u8)
        requires
            is_valid_key(key),
            channel_number < CHANNEL_COUNT,
        ensures
            final(self).current_delta == old(self).current_delta,
            final(self).current_time == old(self).current_time,
            final(self).note_blocks@ == old(self).note_blocks@.push(
                open_block(channel_number, key, old(self).current_delta, old(self).current_time),
            ),
    {
        let b = NoteBlock {
            octave: octave_of(key),
            note: note_of(key),
            key: key,
            start_delta: self.current_delta,
            stop_delta: None,
            start_time: self.current_time,
            stop_time: None,
            channel_number: channel_number as u32,
        };
        self.note_blocks.push(b);
    }

    /// Record a note-off: close the most recently added block that is
    /// still open on this key, scanning newest first; with none open the
    /// event is dropped silently.
    pub fn note_off(&mut self, key: u8)
        ensures
            final(self).current_delta == old(self).current_delta,
            final(self).current_time == old(self).current_time,
            final(self).note_blocks@ == ({
                let i = last_open_match(old(self).note_blocks@, key);
                if i >= 0 {
                    old(self).note_blocks@.update(
                        i,
                        close_block(
                            old(self).note_blocks@[i],
                            old(self).current_delta,
                            old(self).current_time,
                        ),
                    )
                } else {
                    old(self).note_blocks@
                }
            }),
    {
        let n = self.note_blocks.len();
        let mut j: usize = n;
        let mut found_at: usize = n;
        while j > 0 && found_at == n
            invariant
                j <= n,
                found_at <= n,
                n == self.note_blocks@.len(),
                self.note_blocks@ == old(self).note_blocks@,
                found_at == n ==> forall|jj: int|
                    j <= jj < n ==> !open_match(#[trigger] self.note_blocks@[jj], key),
                found_at < n ==> {
                    &&& open_match(self.note_blocks@[found_at as int], key)
                    &&& forall|jj: int|
                        found_at < jj < n ==> !open_match(#[trigger] self.note_blocks@[jj], key)
                },
            decreases j,
        {
            j = j - 1;
            if self.note_blocks[j].stop_delta.is_none() && self.note_blocks[j].key == key {
                found_at = j;
            }
        }
        proof {
            lemma_last_open_match_props(old(self).note_blocks@, key);
            if found_at < n {
                assert(last_open_match(old(self).note_blocks@, key) == found_at as int);
            } else {
                assert(last_open_match(old(self).note_blocks@, key) == -1);
            }
        }
        if found_at < n {
            let stop_delta = self.current_delta;
            let stop_time = self.current_time;
            let blk = &mut self.note_blocks[found_at];
            blk.stop_delta = Some(stop_delta);
            blk.stop_time = Some(stop_time);
        }
    }
}

/// The accumulators mirror the model, channel by channel.
pub open spec fn channels_match(chs: Seq<Channel>, m: BuildModel) -> bool {
    &&& chs.len() == CHANNEL_COUNT
    &&& m.channels.len() == CHANNEL_COUNT
    &&& forall|c: int| 0 <= c < CHANNEL_COUNT ==> {
        &&& (#[trigger] chs[c]).current_delta == m.channels[c].current_delta
        &&& chs[c].current_time == m.channels[c].current_time
        &&& chs[c].note_blocks@ == m.channels[c].note_blocks
    }
}

/// Fold a whole event stream into the sixteen channel accumulators.
fn process_events(events: &Vec<SongEvent>) -> (channels: Vec<Channel>)
    requires
        events_wf(events@),
    ensures
        channels_match(channels@, model_after(events@)),
{
    let mut channels: Vec<Channel> = Vec::new();
    let mut c: usize = 0;
    while c < CHANNEL_COUNT
        invariant
            c <= CHANNEL_COUNT,
            channels@.len() == c,
            forall|d: int| 0 <= d < c ==> {
                &&& (#[trigger] channels@[d]).current_delta == 0
                &&& channels@[d].current_time == 0
                &&& channels@[d].note_blocks@ == Seq::<NoteBlock>::empty()
            },
        decreases CHANNEL_COUNT - c,
    {
        channels.push(Channel::new());
        c = c + 1;
    }
    let mut tempo: u32 = DEFAULT_TEMPO;
    let mut tpqn: u32 = DEFAULT_TPQN;
    assert(events@.take(0) =~= Seq::<SongEvent>::empty());
    assert(channels_match(channels@, model_after(events@.take(0))));
    let mut i: usize = 0;
    while i < events.len()
        invariant
            i <= events@.len(),
            events_wf(events@),
            tpqn > 0,
            tempo == model_after(events@.take(i as int)).tempo,
            tpqn == model_after(events@.take(i as int)).tpqn,
            channels_match(channels@, model_after(events@.take(i as int))),
        decreases events@.len() - i,
    {
        let ghost m = model_after(events@.take(i as int));
        proof {
            assert(events@.take(i + 1).drop_last() =~= events@.take(i as int));
            assert(events@.take(i + 1).last() == events@[i as int]);
            assert(model_after(events@.take(i + 1)) == model_step(m, events@[i as int]));
            assert(event_wf(events@[i as int]));
        }
        let ev = events[i];
        match ev {
            SongEvent::Header { ticks_per_quarter_note } => {
                tpqn = match ticks_per_quarter_note {
                    Some(n) => if n == 0 {
                        DEFAULT_TPQN
                    } else {
                        n as u32
                    },
                    None => DEFAULT_TPQN,
                };
            },
            SongEvent::TrackStart => {},
            SongEvent::TrackEvent { delta_ticks, payload } => {
                match payload {
                    TrackPayload::Voice { channel, kind } => {
                        let cix = channel as usize;
                        let ch = &mut channels[cix];
                        ch.advance(delta_ticks, tempo, tpqn);
                        match kind {
                            VoiceKind::NoteOn { key } => {
                                ch.note_on(channel, key);
                            },
                            VoiceKind::NoteOff { key } => {
                                ch.note_off(key);
                            },
                            VoiceKind::Other => {},
                        }
                        assert(channels_match(channels@, model_after(events@.take(i + 1))));
                    },
                    TrackPayload::Tempo { micros_per_quarter_note } => {
                        tempo = micros_per_quarter_note;
                    },
                    TrackPayload::OtherMeta => {},
                    TrackPayload::SysEx => {},
                }
            },
        }
        i = i + 1;
    }
    proof {
        assert(events@.take(events@.len() as int) =~= events@);
    }
    channels
}

/// A chord group's onset key: the start tick all its blocks share.
pub open spec fn group_key(g: Seq<NoteBlock>) -> u64 {
    g[0].start_delta
}

/// A chord group is never empty and all its blocks share the onset key.
pub open spec fn group_wf(g: Seq<NoteBlock>) -> bool {
    &&& g.len() > 0
    &&& forall|i: int| 0 <= i < g.len() ==> (#[trigger] g[i]).start_delta == group_key(g)
}

/// Timeline shape: well-formed groups, ordered by strictly ascending onset
/// key (so no two groups share one).
pub open spec fn groups_wf(gs: Seq<Seq<NoteBlock>>) -> bool {
    &&& forall|i: int| 0 <= i < gs.len() ==> group_wf(#[trigger] gs[i])
    &&& forall|i: int, j: int|
        0 <= i < j < gs.len() ==> group_key(#[trigger] gs[i]) < group_key(#[trigger] gs[j])
}

/// Every block of every group is well formed.
pub open spec fn groups_blocks_wf(gs: Seq<Seq<NoteBlock>>) -> bool {
    forall|i: int, j: int|
        0 <= i < gs.len() && 0 <= j < gs[i].len() ==> (#[trigger] gs[i][j]).wf()
}

/// The groups' views, one sequence of blocks per group.
pub open spec fn groups_view(gs: Seq<Vec<NoteBlock>>) -> Seq<Seq<NoteBlock>> {
    gs.map_values(|g: Vec<NoteBlock>| g@)
}

/// Growing one inner sequence by an element grows the flattened multiset
/// by that element.
proof fn lemma_flatten_update_push(ss: Seq<Seq<NoteBlock>>, i: int, x: NoteBlock)
    requires
        0 <= i < ss.len(),
    ensures
        ss.update(i, ss[i].push(x)).flatten().to_multiset() =~= ss.flatten().to_multiset().insert(
            x,
        ),
{
    broadcast use vstd::seq_lib::group_to_multiset_ensures;
    broadcast use vstd::multiset::group_multiset_axioms;

    let a = ss.take(i);
    let m = ss[i];
    let c = ss.skip(i + 1);
    let ss2 = ss.update(i, m.push(x));
    assert(ss =~= a + seq![m] + c);
    assert(ss2 =~= a + seq![m.push(x)] + c);
    lemma_flatten_concat(a + seq![m], c);
    lemma_flatten_concat(a, seq![m]);
    lemma_flatten_concat(a + seq![m.push(x)], c);
    lemma_flatten_concat(a, seq![m.push(x)]);
    seq![m].lemma_flatten_singleton();
    seq![m.push(x)].lemma_flatten_singleton();
    lemma_multiset_commutative(a.flatten(), m);
    lemma_multiset_commutative(a.flatten() + m, c.flatten());
    lemma_multiset_commutative(a.flatten(), m.push(x));
    lemma_multiset_commutative(a.flatten() + m.push(x), c.flatten());
    assert(ss.flatten().to_multiset() == ((a.flatten() + m) + c.flatten()).to_multiset());
    assert(ss2.flatten().to_multiset() == ((a.flatten() + m.push(x)) + c.flatten()).to_multiset());
    assert(ss2.flatten().to_multiset() =~= ss.flatten().to_multiset().insert(x));
}

/// Inserting a one-block group grows the flattened multiset by that block.
proof fn lemma_flatten_insert_singleton(ss: Seq<Seq<NoteBlock>>, i: int, x: NoteBlock)
    requires
        0 <= i <= ss.len(),
    ensures
        ss.insert(i, seq![x]).flatten().to_multiset() =~= ss.flatten().to_multiset().insert(x),
{
    broadcast use vstd::seq_lib::group_to_multiset_ensures;
    broadcast use vstd::multiset::group_multiset_axioms;

    let a = ss.take(i);
    let c = ss.skip(i);
    let ss2 = ss.insert(i, seq![x]);
    assert(ss =~= a + c);
    assert(ss2 =~= a + seq![seq![x]] + c);
    lemma_flatten_concat(a, c);
    lemma_flatten_concat(a + seq![seq![x]], c);
    lemma_flatten_concat(a, seq![seq![x]]);
    seq![seq![x]].lemma_flatten_singleton();
    lemma_multiset_commutative(a.flatten(), c.flatten());
    lemma_multiset_commutative(a.flatten(), seq![x]);
    lemma_multiset_commutative(a.flatten() + seq![x], c.flatten());
    assert(seq![x].to_multiset() =~= Multiset::<NoteBlock>::empty().insert(x)) by {
        assert(seq![x] =~= Seq::<NoteBlock>::empty().push(x));
    }
    assert(ss2.flatten().to_multiset() =~= ss.flatten().to_multiset().insert(x));
}

/// Place one block into the timeline under construction: into the group
/// that carries its onset tick, or into a fresh group inserted where that
/// tick belongs in the ascending order.
fn push_into_groups(groups: &mut Vec<Vec<NoteBlock>>, b: NoteBlock)
    requires
        groups_wf(groups_view(old(groups)@)),
        groups_blocks_wf(groups_view(old(groups)@)),
        b.wf(),
    ensures
        groups_wf(groups_view(final(groups)@)),
        groups_blocks_wf(groups_view(final(groups)@)),
        groups_view(final(groups)@).flatten().to_multiset() == groups_view(
            old(groups)@,
        ).flatten().to_multiset().insert(b),
{
    let n = groups.len();
    proof {
        assert forall|k: int| 0 <= k < n implies (#[trigger] groups@[k])@.len() > 0 by {
            assert(group_wf(groups_view(groups@)[k]));
            assert(groups_view(groups@)[k] == groups@[k]@);
        }
    }
    let mut i: usize = 0;
    while i < n && groups[i][0].start_delta < b.start_delta
        invariant
            i <= n,
            n == groups@.len(),
            groups@ == old(groups)@,
            groups_wf(groups_view(groups@)),
            forall|k: int| 0 <= k < n ==> (#[trigger] groups@[k])@.len() > 0,
            forall|k: int| 0 <= k < i ==> group_key(#[trigger] groups_view(groups@)[k])
                < b.start_delta,
        decreases n - i,
    {
        i = i + 1;
    }
    let mut matched = false;
    if i < n {
        matched = groups[i][0].start_delta == b.start_delta;
    }
    let ghost old_view = groups_view(old(groups)@);
    if matched {
        let g = &mut groups[i];
        g.push(b);
        proof {
            let new_view = groups_view(groups@);
            assert(new_view =~= old_view.update(i as int, old_view[i as int].push(b)));
            lemma_flatten_update_push(old_view, i as int, b);
            assert(groups_wf(new_view)) by {
                assert(forall|k: int|
                    0 <= k < new_view.len() && k != i ==> new_view[k] == old_view[k]);
                assert(group_key(new_view[i as int]) == group_key(old_view[i as int]));
            }
        }
    } else {
        let mut g: Vec<NoteBlock> = Vec::new();
        g.push(b);
        groups.insert(i, g);
        proof {
            let new_view = groups_view(groups@);
            assert(g@ =~= seq![b]);
            assert(new_view =~= old_view.insert(i as int, seq![b]));
            lemma_flatten_insert_singleton(old_view, i as int, b);
            assert(groups_wf(new_view)) by {
                assert(forall|k: int| 0 <= k < i ==> new_view[k] == old_view[k]);
                assert(forall|k: int|
                    i < k < new_view.len() ==> new_view[k] == old_view[k - 1]);
                assert(group_key(new_view[i as int]) == b.start_delta);
                assert(forall|k: int|
                    i < k < new_view.len() ==> group_key(#[trigger] old_view[k - 1])
                        > b.start_delta);
            }
        }
    }
}

/// Every block the fold produced, channel-major, each channel's blocks in
/// arrival order.
pub open spec fn model_blocks(m: BuildModel) -> Seq<NoteBlock> {
    m.channels.map_values(|ch: ChannelModel| ch.note_blocks).flatten()
}

/// The blocks of the first `c` channels, then the first `j` blocks of
/// channel `c`: what the assembly loops have placed so far.
pub open spec fn placed_blocks(m: BuildModel, c: int, j: int) -> Seq<NoteBlock> {
    m.channels.take(c).map_values(|ch: ChannelModel| ch.note_blocks).flatten()
        + m.channels[c].note_blocks.take(j)
}

/// True of a track event carrying a voice message for channel `c`.
pub open spec fn is_voice_event_on(ev: SongEvent, c: u8) -> bool {
    match ev {
        SongEvent::TrackEvent { payload: TrackPayload::Voice { channel, .. }, .. } => channel == c,
        _ => false,
    }
}

/// The tick deltas of the voice events addressed to channel `c`, in
/// stream order.
pub open spec fn channel_voice_deltas(events: Seq<SongEvent>, c: u8) -> Seq<u32>
    decreases events.len(),
{
    if events.len() == 0 {
        Seq::empty()
    } else {
        let rest = channel_voice_deltas(events.drop_last(), c);
        match events.last() {
            SongEvent::TrackEvent { delta_ticks, payload: TrackPayload::Voice { channel, .. } } => {
                if channel == c {
                    rest.push(delta_ticks)
                } else {
                    rest
                }
            },
            _ => rest,
        }
    }
}

/// The time a channel clock reaches after a run of deltas under one
/// tempo: each delta's microseconds added in turn, capped at the top.
pub open spec fn accumulated_time(dts: Seq<u32>, tempo: u32, tpqn: u32) -> u64
    decreases dts.len(),
{
    if dts.len() == 0 {
        0
    } else {
        sat_add_u64(
            accumulated_time(dts.drop_last(), tempo, tpqn),
            tick_micros(dts.last(), tempo, tpqn),
        )
    }
}

/// The exact cumulative sum of each delta's microseconds, uncapped.
pub open spec fn summed_time(dts: Seq<u32>, tempo: u32, tpqn: u32) -> int
    decreases dts.len(),
{
    if dts.len() == 0 {
        0
    } else {
        summed_time(dts.drop_last(), tempo, tpqn) + tick_micros(dts.last(), tempo, tpqn)
    }
}

/// The fold always keeps sixteen channel accumulators.
pub proof fn lemma_model_channels_len(events: Seq<SongEvent>)
    ensures
        model_after(events).channels.len() == CHANNEL_COUNT,
    decreases events.len(),
{
    if events.len() > 0 {
        lemma_model_channels_len(events.drop_last());
    }
}

/// Law of the tempo accumulator: while the tempo and the tick resolution
/// stay constant across a channel's voice events, the channel's time
/// clock is exactly the cumulative `dt × tempo / tpqn` of those events,
/// truncated per event and capped at `u64::MAX`.
pub proof fn lemma_constant_tempo_accumulation(
    events: Seq<SongEvent>,
    c: u8,
    tempo: u32,
    tpqn: u32,
)
    requires
        c < CHANNEL_COUNT,
        forall|i: int|
            0 <= i < events.len() && is_voice_event_on(#[trigger] events[i], c) ==> {
                &&& model_after(events.take(i)).tempo == tempo
                &&& model_after(events.take(i)).tpqn == tpqn
            },
    ensures
        model_after(events).channels[c as int].current_time == accumulated_time(
            channel_voice_deltas(events, c),
            tempo,
            tpqn,
        ),
    decreases events.len(),
{
    lemma_model_channels_len(events);
    if events.len() > 0 {
        let prefix = events.drop_last();
        let ev = events.last();
        lemma_model_channels_len(prefix);
        assert(forall|i: int|
            0 <= i < prefix.len() ==> #[trigger] prefix[i] == events[i]);
        assert forall|i: int|
            0 <= i < prefix.len() && is_voice_event_on(#[trigger] prefix[i], c) implies {
            &&& model_after(prefix.take(i)).tempo == tempo
            &&& model_after(prefix.take(i)).tpqn == tpqn
        } by {
            assert(prefix.take(i) =~= events.take(i));
        }
        lemma_constant_tempo_accumulation(prefix, c, tempo, tpqn);
        if is_voice_event_on(ev, c) {
            assert(events.take(events.len() - 1) =~= prefix);
            assert(is_voice_event_on(events[events.len() - 1], c));
            assert(model_after(prefix).tempo == tempo && model_after(prefix).tpqn == tpqn);
            match ev {
                SongEvent::TrackEvent {
                    delta_ticks,
                    payload: TrackPayload::Voice { channel, kind },
                } => {
                    let dts = channel_voice_deltas(events, c);
                    assert(dts == channel_voice_deltas(prefix, c).push(delta_ticks));
                    assert(dts.drop_last() =~= channel_voice_deltas(prefix, c));
                    assert(model_after(events).channels[c as int].current_time == sat_add_u64(
                        model_after(prefix).channels[c as int].current_time,
                        tick_micros(delta_ticks, tempo, tpqn),
                    ));
                },
                _ => {},
            }
        } else {
            assert(channel_voice_deltas(events, c) == channel_voice_deltas(prefix, c));
            assert(model_after(events).channels[c as int].current_time == model_after(
                prefix,
            ).channels[c as int].current_time);
        }
    }
}

/// When the exact cumulative sum fits in `u64`, the capped accumulation
/// is that sum itself: no truncation beyond the per-event division.
pub proof fn lemma_accumulated_time_is_sum(dts: Seq<u32>, tempo: u32, tpqn: u32)
    requires
        tpqn > 0,
        summed_time(dts, tempo, tpqn) <= u64::MAX,
    ensures
        accumulated_time(dts, tempo, tpqn) == summed_time(dts, tempo, tpqn),
    decreases dts.len(),
{
    if dts.len() > 0 {
        lemma_tick_micros_nonneg(dts.last(), tempo, tpqn);
        lemma_summed_time_nonneg(dts.drop_last(), tempo, tpqn);
        lemma_accumulated_time_is_sum(dts.drop_last(), tempo, tpqn);
    }
}

/// A cumulative sum of nonnegative spans is nonnegative.
pub proof fn lemma_summed_time_nonneg(dts: Seq<u32>, tempo: u32, tpqn: u32)
    requires
        tpqn > 0,
    ensures
        summed_time(dts, tempo, tpqn) >= 0,
    decreases dts.len(),
{
    if dts.len() > 0 {
        lemma_tick_micros_nonneg(dts.last(), tempo, tpqn);
        lemma_summed_time_nonneg(dts.drop_last(), tempo, tpqn);
    }
}

/// The two halves put together: under a constant tempo and resolution,
/// and with the total in range, a channel's time clock is exactly
/// `Σ dt × tempo / tpqn` over its voice events, truncated per event.
pub proof fn lemma_constant_tempo_time_is_sum(
    events: Seq<SongEvent>,
    c: u8,
    tempo: u32,
    tpqn: u32,
)
    requires
        c < CHANNEL_COUNT,
        tpqn > 0,
        forall|i: int|
            0 <= i < events.len() && is_voice_event_on(#[trigger] events[i], c) ==> {
                &&& model_after(events.take(i)).tempo == tempo
                &&& model_after(events.take(i)).tpqn == tpqn
            },
        summed_time(channel_voice_deltas(events, c), tempo, tpqn) <= u64::MAX,
    ensures
        model_after(events).channels[c as int].current_time == summed_time(
            channel_voice_deltas(events, c),
            tempo,
            tpqn,
        ),
{
    lemma_constant_tempo_accumulation(events, c, tempo, tpqn);
    lemma_accumulated_time_is_sum(channel_voice_deltas(events, c), tempo, tpqn);
}

/// A missing stop time read as zero, as the overlap test does.
pub open spec fn stop_or_zero(b: NoteBlock) -> u64 {
    match b.stop_time {
        Option::Some(t) => t,
        Option::None => 0,
    }
}

/// One block against the window `(from_time, to_time)`: it starts strictly
/// inside, or it stops strictly inside, or it spans the whole window.  A
/// hanging note counts a stop of zero here, never a made-up end.
pub open spec fn block_overlaps(b: NoteBlock, from_time: u64, to_time: u64) -> bool {
    ||| (b.start_time > from_time && b.start_time < to_time)
    ||| (stop_or_zero(b) > from_time && stop_or_zero(b) < to_time)
    ||| (b.start_time < from_time && stop_or_zero(b) > to_time)
}

/// A group overlaps the window when any of its blocks does.
pub open spec fn group_overlaps(g: Seq<NoteBlock>, from_time: u64, to_time: u64) -> bool {
    exists|i: int| 0 <= i < g.len() && block_overlaps(#[trigger] g[i], from_time, to_time)
}

/// The earliest start time among a group's blocks: its onset time.
pub open spec fn group_onset_time(g: Seq<NoteBlock>) -> u64
    recommends
        g.len() > 0,
    decreases g.len(),
{
    if g.len() <= 1 {
        g[0].start_time
    } else {
        let rest = group_onset_time(g.drop_last());
        if g.last().start_time < rest {
            g.last().start_time
        } else {
            rest
        }
    }
}

/// A nonempty group whose onset lies strictly after `t`.
pub open spec fn group_after(g: Seq<NoteBlock>, t: u64) -> bool {
    g.len() > 0 && group_onset_time(g) > t
}

/// Index of the first group past `t`, scanning in timeline order.
pub open spec fn spec_next_index(gs: Seq<Seq<NoteBlock>>, t: u64) -> Option<int>
    decreases gs.len(),
{
    if gs.len() == 0 {
        Option::None
    } else if group_after(gs.first(), t) {
        Option::Some(0int)
    } else {
        match spec_next_index(gs.drop_first(), t) {
            Option::Some(i) => Option::Some(i + 1),
            Option::None => Option::None,
        }
    }
}

/// `spec_next_index` names the least index past `t`, and `None` exactly
/// when there is none.
pub proof fn lemma_spec_next_index_props(gs: Seq<Seq<NoteBlock>>, t: u64)
    ensures
        match spec_next_index(gs, t) {
            Option::Some(i) => {
                &&& 0 <= i < gs.len()
                &&& group_after(gs[i], t)
                &&& forall|k: int| 0 <= k < i ==> !group_after(#[trigger] gs[k], t)
            },
            Option::None => forall|k: int| 0 <= k < gs.len() ==> !group_after(#[trigger] gs[k], t),
        },
    decreases gs.len(),
{
    if gs.len() > 0 && !group_after(gs.first(), t) {
        lemma_spec_next_index_props(gs.drop_first(), t);
        match spec_next_index(gs.drop_first(), t) {
            Option::Some(i) => {
                assert(gs.drop_first()[i] == gs[i + 1]);
                assert forall|k: int| 0 <= k < i + 1 implies !group_after(#[trigger] gs[k], t) by {
                    if k > 0 {
                        assert(gs.drop_first()[k - 1] == gs[k]);
                    }
                }
            },
            Option::None => {
                assert forall|k: int| 0 <= k < gs.len() implies !group_after(
                    #[trigger] gs[k],
                    t,
                ) by {
                    if k > 0 {
                        assert(gs.drop_first()[k - 1] == gs[k]);
                    }
                }
            },
        }
    }
}

/// The song timeline: chord groups ordered by ascending onset tick,
/// immutable once built.
pub struct Song {
    note_blocks: Vec<Vec<NoteBlock>>,
}

impl View for Song {
    type V = Seq<Seq<NoteBlock>>;

    closed spec fn view(&self) -> Seq<Seq<NoteBlock>> {
        groups_view(self.note_blocks@)
    }
}

impl Song {
    /// Shape of a built timeline: groups nonempty and uniform in onset
    /// key, keys strictly ascending, every block well formed.
    pub open spec fn wf(self) -> bool {
        &&& groups_wf(self@)
        &&& groups_blocks_wf(self@)
    }

    /// Build the timeline from a decoded event stream.
    ///
    /// The stream is folded into per-channel accumulators exactly as
    /// `model_after` describes; the resulting blocks are then grouped by
    /// onset tick, so that concatenating all groups yields every block
    /// exactly once.
    pub fn build(events: &Vec<SongEvent>) -> (song: Song)
        requires
            events_wf(events@),
        ensures
            song.wf(),
            song@.flatten().to_multiset() == model_blocks(model_after(events@)).to_multiset(),
    {
        broadcast use vstd::seq_lib::group_to_multiset_ensures;

        let ghost m = model_after(events@);
        let channels = process_events(events);
        proof {
            lemma_model_after_wf(events@);
        }
        let mut groups: Vec<Vec<NoteBlock>> = Vec::new();
        proof {
            assert(m.channels.take(0) =~= Seq::<ChannelModel>::empty());
            assert(m.channels.take(0).map_values(|ch: ChannelModel| ch.note_blocks).flatten()
                =~= Seq::<NoteBlock>::empty());
            assert(placed_blocks(m, 0, 0) =~= Seq::<NoteBlock>::empty());
            assert(groups_view(groups@) =~= Seq::<Seq<NoteBlock>>::empty());
            assert(groups_view(groups@).flatten() =~= Seq::<NoteBlock>::empty());
        }
        let mut c: usize = 0;
        while c < CHANNEL_COUNT
            invariant
                c <= CHANNEL_COUNT,
                channels_match(channels@, m),
                model_wf(m),
                groups_wf(groups_view(groups@)),
                groups_blocks_wf(groups_view(groups@)),
                c < CHANNEL_COUNT ==> groups_view(groups@).flatten().to_multiset()
                    == placed_blocks(m, c as int, 0).to_multiset(),
                c == CHANNEL_COUNT ==> groups_view(groups@).flatten().to_multiset()
                    == model_blocks(m).to_multiset(),
            decreases CHANNEL_COUNT - c,
        {
            let n_blocks = channels[c].note_blocks.len();
            let mut j: usize = 0;
            while j < n_blocks
                invariant
                    c < CHANNEL_COUNT,
                    j <= n_blocks,
                    channels_match(channels@, m),
                    model_wf(m),
                    n_blocks == m.channels[c as int].note_blocks.len(),
                    groups_wf(groups_view(groups@)),
                    groups_blocks_wf(groups_view(groups@)),
                    groups_view(groups@).flatten().to_multiset() == placed_blocks(
                        m,
                        c as int,
                        j as int,
                    ).to_multiset(),
                decreases n_blocks - j,
            {
                let b = channels[c].note_blocks[j];
                proof {
                    assert(channel_model_wf(m.channels[c as int], c as int));
                    assert(b == m.channels[c as int].note_blocks[j as int]);
                    assert(b.wf());
                }
                let ghost before = groups_view(groups@);
                push_into_groups(&mut groups, b);
                proof {
                    broadcast use vstd::seq_lib::group_to_multiset_ensures;

                    let cblocks = m.channels[c as int].note_blocks;
                    assert(cblocks.take(j + 1) =~= cblocks.take(j as int).push(b));
                    assert(placed_blocks(m, c as int, j + 1) =~= placed_blocks(
                        m,
                        c as int,
                        j as int,
                    ).push(b));
                }
                j = j + 1;
            }
            proof {
                let chs = m.channels.map_values(|ch: ChannelModel| ch.note_blocks);
                chs.take(c as int).lemma_flatten_push(m.channels[c as int].note_blocks);
                assert(m.channels.take(c as int).map_values(|ch: ChannelModel| ch.note_blocks)
                    =~= chs.take(c as int));
                assert(m.channels.take(c + 1).map_values(|ch: ChannelModel| ch.note_blocks)
                    =~= chs.take(c as int).push(m.channels[c as int].note_blocks));
                assert(chs.take(c as int).push(m.channels[c as int].note_blocks).flatten()
                    =~= chs.take(c as int).flatten() + m.channels[c as int].note_blocks);
                let cblocks = m.channels[c as int].note_blocks;
                assert(cblocks.take(n_blocks as int) =~= cblocks);
                if c + 1 < CHANNEL_COUNT {
                    assert(m.channels[c + 1].note_blocks.take(0) =~= Seq::<NoteBlock>::empty());
                    assert(placed_blocks(m, c + 1, 0) =~= placed_blocks(
                        m,
                        c as int,
                        n_blocks as int,
                    ));
                } else {
                    assert(chs[c as int] == m.channels[c as int].note_blocks);
                    assert(chs.take(c + 1) =~= chs.take(c as int).push(chs[c as int]));
                    assert(chs.take(CHANNEL_COUNT as int) =~= chs);
                    assert(model_blocks(m) =~= placed_blocks(m, c as int, n_blocks as int));
                }
            }
            c = c + 1;
        }
        Song { note_blocks: groups }
    }

    /// How many chord groups the timeline holds.
    pub fn len(&self) -> (n: usize)
        ensures
            n == self@.len(),
    {
        self.note_blocks.len()
    }

    /// The chord group at an index.
    pub fn group(&self, i: usize) -> (g: &Vec<NoteBlock>)
        requires
            i < self@.len(),
        ensures
            g@ == self@[i as int],
    {
        &self.note_blocks[i]
    }

    /// The onset time of one group: the earliest start among its blocks.
    pub fn group_onset(g: &Vec<NoteBlock>) -> (r: u64)
        requires
            g@.len() > 0,
        ensures
            r == group_onset_time(g@),
    {
        let mut mn: u64 = g[0].start_time;
        let mut j: usize = 1;
        while j < g.len()
            invariant
                1 <= j <= g@.len(),
                mn == group_onset_time(g@.take(j as int)),
            decreases g@.len() - j,
        {
            proof {
                assert(g@.take(j + 1).drop_last() =~= g@.take(j as int));
                assert(g@.take(j + 1).last() == g@[j as int]);
            }
            if g[j].start_time < mn {
                mn = g[j].start_time;
            }
            j = j + 1;
        }
        proof {
            assert(g@.take(g@.len() as int) =~= g@);
        }
        mn
    }

    /// Whether any block of the group overlaps the window.
    fn should_include(&self, from_time: u64, to_time: u64, group: &Vec<NoteBlock>) -> (r: bool)
        ensures
            r == group_overlaps(group@, from_time, to_time),
    {
        let mut result = false;
        let mut i: usize = 0;
        while i < group.len()
            invariant
                i <= group@.len(),
                result == group_overlaps(group@.take(i as int), from_time, to_time),
            decreases group@.len() - i,
        {
            let b = group[i];
            let stop = match b.stop_time {
                Some(t) => t,
                None => 0,
            };
            if (b.start_time > from_time && b.start_time < to_time) || (stop > from_time && stop
                < to_time) || (b.start_time < from_time && stop > to_time) {
                result = true;
            }
            proof {
                assert(group@.take(i + 1).drop_last() =~= group@.take(i as int));
                assert(group@.take(i + 1).last() == group@[i as int]);
                if group_overlaps(group@.take(i as int), from_time, to_time) {
                    let w = choose|w: int|
                        0 <= w < i && block_overlaps(#[trigger] group@.take(i as int)[w], from_time, to_time);
                    assert(block_overlaps(group@.take(i + 1)[w], from_time, to_time));
                }
            }
            i = i + 1;
        }
        proof {
            assert(group@.take(group@.len() as int) =~= group@);
        }
        result
    }

    /// The contiguous index span of groups to draw for the window
    /// `(from_time, to_time)`: from the lowest overlapping group to the
    /// highest, half open, both clamped to the timeline.  Groups that do
    /// not overlap but sit between two that do are included with them;
    /// with no overlapping group at all the span is empty.
    pub fn range(&self, from_time: u64, to_time: u64) -> (r: (usize, usize))
        ensures
            r.0 <= r.1 <= self@.len(),
            (exists|i: int|
                0 <= i < self@.len() && group_overlaps(#[trigger] self@[i], from_time, to_time))
                ==> {
                &&& r.0 < r.1
                &&& group_overlaps(self@[r.0 as int], from_time, to_time)
                &&& group_overlaps(self@[r.1 - 1], from_time, to_time)
                &&& forall|i: int|
                    0 <= i < r.0 ==> !group_overlaps(#[trigger] self@[i], from_time, to_time)
                &&& forall|i: int|
                    r.1 <= i < self@.len() ==> !group_overlaps(
                        #[trigger] self@[i],
                        from_time,
                        to_time,
                    )
            },
            !(exists|i: int|
                0 <= i < self@.len() && group_overlaps(#[trigger] self@[i], from_time, to_time))
                ==> r == (0usize, 0usize),
    {
        let n = self.note_blocks.len();
        let mut from_ix: usize = 0;
        let mut to_ix: usize = 0;
        let mut found = false;
        let mut ix: usize = 0;
        while ix < n
            invariant
                ix <= n,
                n == self@.len(),
                !found ==> forall|i: int|
                    0 <= i < ix ==> !group_overlaps(#[trigger] self@[i], from_time, to_time),
                found ==> {
                    &&& from_ix <= to_ix < ix
                    &&& group_overlaps(self@[from_ix as int], from_time, to_time)
                    &&& group_overlaps(self@[to_ix as int], from_time, to_time)
                    &&& forall|i: int|
                        0 <= i < from_ix ==> !group_overlaps(
                            #[trigger] self@[i],
                            from_time,
                            to_time,
                        )
                    &&& forall|i: int|
                        to_ix < i < ix ==> !group_overlaps(#[trigger] self@[i], from_time, to_time)
                },
            decreases n - ix,
        {
            let group = &self.note_blocks[ix];
            if self.should_include(from_time, to_time, group) {
                if !found {
                    from_ix = ix;
                }
                to_ix = ix;
                found = true;
            }
            ix = ix + 1;
        }
        if found {
            (from_ix, to_ix + 1)
        } else {
            (0, 0)
        }
    }

    /// Index of the first nonempty group whose onset lies strictly after
    /// `from_time`.
    fn time_offset_to_index(&self, from_time: u64) -> (r: Option<usize>)
        ensures
            match r {
                Option::Some(i) => spec_next_index(self@, from_time) == Option::Some(i as int),
                Option::None => spec_next_index(self@, from_time) is None,
            },
    {
        proof {
            lemma_spec_next_index_props(self@, from_time);
        }
        let n = self.note_blocks.len();
        let mut i: usize = 0;
        while i < n
            invariant
                i <= n,
                n == self@.len(),
                forall|k: int| 0 <= k < i ==> !group_after(#[trigger] self@[k], from_time),
            decreases n - i,
        {
            let group = &self.note_blocks[i];
            if group.len() > 0 {
                let onset = Self::group_onset(group);
                if onset > from_time {
                    proof {
                        lemma_spec_next_index_props(self@, from_time);
                        assert(group_after(self@[i as int], from_time));
                    }
                    return Some(i);
                }
            }
            i = i + 1;
        }
        proof {
            lemma_spec_next_index_props(self@, from_time);
        }
        None
    }

    /// Index of the next chord group after `from_time`, or `None` when no
    /// group starts past it.
    pub fn next(&self, from_time: u64) -> (r: Option<usize>)
        ensures
            match r {
                Option::Some(i) => spec_next_index(self@, from_time) == Option::Some(i as int),
                Option::None => spec_next_index(self@, from_time) is None,
            },
    {
        self.time_offset_to_index(from_time)
    }

    /// Index two groups before the next one after `from_time`, clamped to
    /// the first group: where the practice cursor rewinds to.  `None` only
    /// on an empty timeline.
    pub fn prev(&self, from_time: u64) -> (r: Option<usize>)
        ensures
            r is None <==> self@.len() == 0,
            self@.len() > 0 ==> r == Option::Some(
                match spec_next_index(self@, from_time) {
                    Option::Some(i) => if i >= 2 {
                        (i - 2) as usize
                    } else {
                        0usize
                    },
                    Option::None => 0usize,
                },
            ),
    {
        proof {
            lemma_spec_next_index_props(self@, from_time);
        }
        if self.note_blocks.len() == 0 {
            return None;
        }
        match self.time_offset_to_index(from_time) {
            Some(i) => if i >= 2 {
                Some(i - 2)
            } else {
                Some(0)
            },
            None => Some(0),
        }
    }
}

} // verus!
