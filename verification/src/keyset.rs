//! A set of piano keys, held as a strictly sorted vector of key bytes.
//!
//! Practice playback resumes only on exact set equality between the keys
//! held down and the keys a chord group asks for, so the set's equality
//! test is the load-bearing operation here.

use vstd::prelude::*;
use vstd::seq_lib::group_seq_properties;
use vstd::set::group_set_axioms;

verus! {

broadcast use group_set_axioms, group_seq_properties;

/// A finite set of key bytes.
pub struct KeySet {
    keys: Vec<u8>,
}

impl View for KeySet {
    type V = Set<u8>;

    closed spec fn view(&self) -> Set<u8> {
        self.keys@.to_set()
    }
}

impl KeySet {
    /// The keys stay strictly sorted, so each key appears once.
    pub closed spec fn wf(self) -> bool {
        forall|i: int, j: int| 0 <= i < j < self.keys@.len() ==> self.keys@[i] < self.keys@[j]
    }

    /// An empty set.
    pub fn new() -> (s: KeySet)
        ensures
            s.wf(),
            s@ == Set::<u8>::empty(),
    {
        let s = KeySet { keys: Vec::new() };
        proof {
            assert(s.keys@.to_set() =~= Set::<u8>::empty());
        }
        s
    }

    /// How many keys the set holds.
    pub fn len(&self) -> (n: usize)
        requires
            self.wf(),
        ensures
            n == self@.len(),
    {
        proof {
            assert(self.keys@.no_duplicates());
            self.keys@.unique_seq_to_set();
        }
        self.keys.len()
    }

    /// Whether the set is empty.
    pub fn is_empty(&self) -> (r: bool)
        requires
            self.wf(),
        ensures
            r == (self@ =~= Set::<u8>::empty()),
    {
        proof {
            if self.keys@.len() > 0 {
                assert(self@.contains(self.keys@[0]));
            } else {
                assert(self.keys@.to_set() =~= Set::<u8>::empty());
            }
        }
        self.keys.len() == 0
    }

    /// Whether `key` is in the set.
    pub fn contains(&self, key: u8) -> (r: bool)
        ensures
            r == self@.contains(key),
    {
        let n = self.keys.len();
        let mut i: usize = 0;
        while i < n
            invariant
                i <= n,
                n == self.keys@.len(),
                forall|k: int| 0 <= k < i ==> self.keys@[k] != key,
            decreases n - i,
        {
            if self.keys[i] == key {
                return true;
            }
            i = i + 1;
        }
        proof {
            assert(!self.keys@.contains(key));
        }
        false
    }

    /// Add `key` to the set; adding a key already present changes nothing.
    pub fn insert(&mut self, key: u8)
        requires
            old(self).wf(),
        ensures
            final(self).wf(),
            final(self)@ == old(self)@.insert(key),
    {
        let n = self.keys.len();
        let mut i: usize = 0;
        while i < n && self.keys[i] < key
            invariant
                i <= n,
                n == self.keys@.len(),
                self.keys@ == old(self).keys@,
                old(self).wf(),
                forall|k: int| 0 <= k < i ==> self.keys@[k] < key,
            decreases n - i,
        {
            i = i + 1;
        }
        if i < n && self.keys[i] == key {
            proof {
                assert(self.keys@.contains(key));
                assert(self.keys@.to_set() =~= self.keys@.to_set().insert(key));
            }
        } else {
            let ghost s = self.keys@;
            self.keys.insert(i, key);
            proof {
                let s2 = self.keys@;
                assert(s2 == s.insert(i as int, key));
                assert forall|x: u8| s2.contains(x) implies s.contains(x) || x == key by {
                    let w = choose|w: int| 0 <= w < s2.len() && s2[w] == x;
                    if w < i {
                        assert(s[w] == x);
                    } else if w > i {
                        assert(s[w - 1] == x);
                    }
                }
                assert forall|x: u8| s.contains(x) implies s2.contains(x) by {
                    let w = choose|w: int| 0 <= w < s.len() && s[w] == x;
                    if w < i {
                        assert(s2[w] == x);
                    } else {
                        assert(s2[w + 1] == x);
                    }
                }
                assert(s2.contains(key)) by {
                    assert(s2[i as int] == key);
                }
                assert(s2.to_set() =~= s.to_set().insert(key));
                assert forall|a: int, b: int|
                    0 <= a < b < s2.len() implies s2[a] < s2[b] by {
                    if b < i {
                    } else if a < i && b == i {
                    } else if a < i && b > i {
                        assert(s2[b] == s[b - 1]);
                    } else if a == i {
                        assert(s2[b] == s[b - 1]);
                        assert(s[i as int] >= key || i == n);
                        assert(s[b - 1] >= s[i as int] || b - 1 == i);
                    } else {
                        assert(s2[a] == s[a - 1]);
                        assert(s2[b] == s[b - 1]);
                    }
                }
            }
        }
    }

    /// Take `key` out of the set; removing an absent key changes nothing.
    pub fn remove(&mut self, key: u8)
        requires
            old(self).wf(),
        ensures
            final(self).wf(),
            final(self)@ == old(self)@.remove(key),
    {
        let n = self.keys.len();
        let mut i: usize = 0;
        while i < n
            invariant
                i <= n,
                n == self.keys@.len(),
                self.keys@ == old(self).keys@,
                old(self).wf(),
                forall|k: int| 0 <= k < i ==> self.keys@[k] != key,
            decreases n - i,
        {
            if self.keys[i] == key {
                let ghost s = self.keys@;
                self.keys.remove(i);
                proof {
                    let s2 = self.keys@;
                    assert(s2 == s.remove(i as int));
                    assert forall|x: u8| s2.contains(x) implies s.contains(x) && x != key by {
                        let w = choose|w: int| 0 <= w < s2.len() && s2[w] == x;
                        if w < i {
                            assert(s[w] == x);
                        } else {
                            assert(s[w + 1] == x);
                        }
                    }
                    assert forall|x: u8| s.contains(x) && x != key implies s2.contains(x) by {
                        let w = choose|w: int| 0 <= w < s.len() && s[w] == x;
                        if w < i {
                            assert(s2[w] == x);
                        } else {
                            assert(w != i);
                            assert(s2[w - 1] == x);
                        }
                    }
                    assert(s2.to_set() =~= s.to_set().remove(key));
                    assert forall|a: int, b: int|
                        0 <= a < b < s2.len() implies s2[a] < s2[b] by {
                        if b < i {
                        } else if a < i {
                            assert(s2[b] == s[b + 1]);
                        } else {
                            assert(s2[a] == s[a + 1]);
                            assert(s2[b] == s[b + 1]);
                        }
                    }
                }
                return;
            }
            i = i + 1;
        }
        proof {
            assert(!self.keys@.contains(key));
            assert(self.keys@.to_set() =~= self.keys@.to_set().remove(key));
        }
    }

    /// Empty the set.
    pub fn clear(&mut self)
        ensures
            final(self).wf(),
            final(self)@ == Set::<u8>::empty(),
    {
        self.keys = Vec::new();
        proof {
            assert(self.keys@.to_set() =~= Set::<u8>::empty());
        }
    }

    /// Exact set equality: the same keys on both sides, no more, no less.
    pub fn equals(&self, other: &KeySet) -> (r: bool)
        ensures
            r == (self@ =~= other@),
    {
        let n = self.keys.len();
        let mut i: usize = 0;
        while i < n
            invariant
                i <= n,
                n == self.keys@.len(),
                forall|k: int| 0 <= k < i ==> other@.contains(#[trigger] self.keys@[k]),
            decreases n - i,
        {
            if !other.contains(self.keys[i]) {
                proof {
                    assert(self@.contains(self.keys@[i as int]));
                }
                return false;
            }
            i = i + 1;
        }
        let m = other.keys.len();
        let mut j: usize = 0;
        while j < m
            invariant
                j <= m,
                m == other.keys@.len(),
                forall|k: int| 0 <= k < n ==> other@.contains(#[trigger] self.keys@[k]),
                n == self.keys@.len(),
                forall|k: int| 0 <= k < j ==> self@.contains(#[trigger] other.keys@[k]),
            decreases m - j,
        {
            if !self.contains(other.keys[j]) {
                proof {
                    assert(other@.contains(other.keys@[j as int]));
                }
                return false;
            }
            j = j + 1;
        }
        proof {
            assert forall|x: u8| self@.contains(x) implies other@.contains(x) by {
                let w = choose|w: int| 0 <= w < self.keys@.len() && self.keys@[w] == x;
                assert(other@.contains(self.keys@[w]));
            }
            assert forall|x: u8| other@.contains(x) implies self@.contains(x) by {
                let w = choose|w: int| 0 <= w < other.keys@.len() && other.keys@[w] == x;
                assert(self@.contains(other.keys@[w]));
            }
        }
        true
    }

    /// The keys, ascending.
    pub fn to_vec(&self) -> (v: Vec<u8>)
        requires
            self.wf(),
        ensures
            v@.len() == self@.len(),
            forall|i: int, j: int| 0 <= i < j < v@.len() ==> v@[i] < v@[j],
            forall|i: int| 0 <= i < v@.len() ==> self@.contains(#[trigger] v@[i]),
            forall|x: u8| self@.contains(x) ==> v@.contains(x),
    {
        proof {
            assert(self.keys@.no_duplicates());
            self.keys@.unique_seq_to_set();
        }
        let mut v: Vec<u8> = Vec::new();
        let n = self.keys.len();
        let mut i: usize = 0;
        while i < n
            invariant
                i <= n,
                n == self.keys@.len(),
                v@ == self.keys@.take(i as int),
            decreases n - i,
        {
            v.push(self.keys[i]);
            proof {
                assert(self.keys@.take(i + 1) =~= self.keys@.take(i as int).push(
                    self.keys@[i as int],
                ));
            }
            i = i + 1;
        }
        proof {
            assert(self.keys@.take(n as int) =~= self.keys@);
        }
        v
    }
}

} // verus!
