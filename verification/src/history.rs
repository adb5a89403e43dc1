//! A short-lived history of live key-down events.
//!
//! Each key-down is recorded with its wall-clock timestamp; entries older
//! than a fixed time-to-live are purged once per session tick.  The
//! history answers how many distinct keys were struck recently, for
//! chords played slightly out of sync; the chord match itself works on
//! the plain set of currently held keys instead.

use vstd::prelude::*;
use vstd::seq_lib::group_seq_properties;
use vstd::set::group_set_axioms;
use crate::keyset::KeySet;

verus! {

broadcast use group_set_axioms, group_seq_properties;

/// How long an entry stays in the history: two seconds, in microseconds.
pub const KEY_HISTORY_TTL_MICROS: u64 = 2_000_000;

/// One recorded key-down: the key and when it was struck.
#[derive(Clone, Copy, Debug)]
pub struct KeyWithTimestamp {
    /// The key byte that went down.
    pub key: u8,
    /// Wall-clock microseconds when it went down.
    pub timestamp: u64,
}

/// An entry still alive at `now`: stamped no later than `now` (an entry
/// from the future is purged, not kept) and younger than the TTL.
pub open spec fn entry_live(e: KeyWithTimestamp, now: u64) -> bool {
    e.timestamp <= now && now - e.timestamp < KEY_HISTORY_TTL_MICROS
}

/// The distinct keys among a run of entries.
pub open spec fn keys_of(h: Seq<KeyWithTimestamp>) -> Set<u8> {
    h.map_values(|e: KeyWithTimestamp| e.key).to_set()
}

/// The recent key-down events, in arrival order.
pub struct ActiveKeysHistory {
    history: Vec<KeyWithTimestamp>,
}

impl View for ActiveKeysHistory {
    type V = Seq<KeyWithTimestamp>;

    closed spec fn view(&self) -> Seq<KeyWithTimestamp> {
        self.history@
    }
}

impl ActiveKeysHistory {
    /// An empty history.
    pub fn new() -> (h: ActiveKeysHistory)
        ensures
            h@ == Seq::<KeyWithTimestamp>::empty(),
    {
        let h = ActiveKeysHistory { history: Vec::new() };
        proof {
            assert(h@ =~= Seq::<KeyWithTimestamp>::empty());
        }
        h
    }

    /// Record a key-down struck at `now`.
    pub fn insert(&mut self, key: u8, now: u64)
        ensures
            final(self)@ == old(self)@.push(KeyWithTimestamp { key, timestamp: now }),
    {
        self.history.push(KeyWithTimestamp { key, timestamp: now });
    }

    /// Purge every entry no longer alive at `now`, keeping the rest in
    /// order.
    pub fn autoclean(&mut self, now: u64)
        ensures
            final(self)@ == old(self)@.filter(|e: KeyWithTimestamp| entry_live(e, now)),
    {
        let ghost pred = |e: KeyWithTimestamp| entry_live(e, now);
        let n = self.history.len();
        let mut kept: Vec<KeyWithTimestamp> = Vec::new();
        proof {
            assert(self@.take(0) =~= Seq::<KeyWithTimestamp>::empty());
            assert(kept@ =~= self@.take(0).filter(pred));
        }
        let mut i: usize = 0;
        while i < n
            invariant
                i <= n,
                n == self@.len(),
                self@ == old(self)@,
                kept@ == self@.take(i as int).filter(pred),
                pred == (|e: KeyWithTimestamp| entry_live(e, now)),
            decreases n - i,
        {
            let e = self.history[i];
            proof {
                assert(self@.take(i + 1).drop_last() =~= self@.take(i as int));
                assert(self@.take(i + 1).last() == e);
                assert(self@.take(i + 1).filter(pred) == if pred(e) {
                    self@.take(i as int).filter(pred).push(e)
                } else {
                    self@.take(i as int).filter(pred)
                }) by {
                    reveal_with_fuel(Seq::<_>::filter, 2);
                }
            }
            if e.timestamp <= now && now - e.timestamp < KEY_HISTORY_TTL_MICROS {
                kept.push(e);
            }
            i = i + 1;
        }
        proof {
            assert(self@.take(n as int) =~= self@);
        }
        self.history = kept;
    }

    /// Forget everything recorded so far.
    pub fn clear(&mut self)
        ensures
            final(self)@ == Seq::<KeyWithTimestamp>::empty(),
    {
        self.history = Vec::new();
        proof {
            assert(self@ =~= Seq::<KeyWithTimestamp>::empty());
        }
    }

    /// The distinct keys recorded, as a set.
    pub fn get(&self) -> (r: KeySet)
        ensures
            r.wf(),
            r@ == keys_of(self@),
    {
        let n = self.history.len();
        let mut r = KeySet::new();
        proof {
            assert(self@.take(0) =~= Seq::<KeyWithTimestamp>::empty());
            assert(self@.take(0).map_values(|e: KeyWithTimestamp| e.key)
                =~= Seq::<u8>::empty());
            assert(keys_of(self@.take(0)) =~= Set::<u8>::empty());
        }
        let mut i: usize = 0;
        while i < n
            invariant
                i <= n,
                n == self@.len(),
                r.wf(),
                r@ == keys_of(self@.take(i as int)),
            decreases n - i,
        {
            r.insert(self.history[i].key);
            proof {
                let f = |e: KeyWithTimestamp| e.key;
                assert(self@.take(i + 1).map_values(f) =~= self@.take(i as int).map_values(
                    f,
                ).push(self@[i as int].key));
                self@.take(i as int).map_values(f).lemma_push_to_set_commute(self@[i as int].key);
            }
            i = i + 1;
        }
        proof {
            assert(self@.take(n as int) =~= self@);
        }
        r
    }

    /// How many distinct keys the history holds.
    pub fn len(&self) -> (n: usize)
        ensures
            n == keys_of(self@).len(),
    {
        let keys = self.get();
        keys.len()
    }
}

} // verus!
