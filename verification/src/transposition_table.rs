//! A fixed-capacity cache keyed by position fingerprint. Each fingerprint
//! maps to the slot `fingerprint % capacity`; an insert overwrites whatever
//! occupies that slot, and a probe answers only if the stored fingerprint
//! matches exactly, so a collision can evict an entry but can never hand
//! back a wrong position's entry.

use vstd::prelude::*;

verus! {

pub struct TranspositionTable<T> {
    pub data: Vec<Option<(T, u64)>>,
    pub collisions: u64,
    pub used: u64,
}

impl<T: Copy> TranspositionTable<T> {
    pub open spec fn capacity(self) -> int {
        self.data@.len() as int
    }

    pub open spec fn wf(self) -> bool {
        self.data@.len() > 0
    }

    /// The slot a fingerprint hashes to.
    pub open spec fn slot_of(self, hash: u64) -> int {
        (hash as int) % self.capacity()
    }

    /// The entry a probe for this fingerprint would find: the slot's
    /// occupant, but only when it was stored under exactly this
    /// fingerprint.
    pub open spec fn lookup(self, hash: u64) -> Option<T> {
        match self.data@[self.slot_of(hash)] {
            Some((v, h)) => if h == hash {
                Some(v)
            } else {
                None
            },
            None => None,
        }
    }

    /// An empty table of the given capacity; every probe misses.
    pub fn new(size: u64) -> (r: TranspositionTable<T>)
        requires
            1 <= size <= 0x1000_0000,
        ensures
            r.wf(),
            r.capacity() == size,
            forall|h: u64| r.lookup(h) is None,
            r.collisions == 0,
            r.used == 0,
    {
        let mut data: Vec<Option<(T, u64)>> = Vec::new();
        let n = size as usize;
        let mut i: usize = 0;
        while i < n
            invariant
                i <= n,
                data@.len() == i,
                forall|j: int| 0 <= j < i ==> data@[j] is None,
            decreases n - i,
        {
            data.push(None);
            i += 1;
        }
        let r = TranspositionTable { data, collisions: 0, used: 0 };
        proof {
            assert forall|h: u64| r.lookup(h) is None by {
                vstd::arithmetic::div_mod::lemma_mod_bound(h as int, r.capacity());
            }
        }
        r
    }

    /// Stores an entry under its fingerprint, overwriting the slot's
    /// previous occupant. Afterwards a probe for this fingerprint finds
    /// exactly this entry, probes for fingerprints of other slots are
    /// unaffected, and a probe for any other fingerprint of the same slot
    /// misses: an evicted entry is gone, never misattributed.
    pub fn insert(&mut self, hash: u64, value: T)
        requires
            old(self).wf(),
        ensures
            final(self).wf(),
            final(self).capacity() == old(self).capacity(),
            final(self).data@ == old(self).data@.update(
                old(self).slot_of(hash),
                Some((value, hash)),
            ),
            final(self).lookup(hash) == Some(value),
            forall|h2: u64|
                final(self).slot_of(h2) != final(self).slot_of(hash) ==> final(self).lookup(h2)
                    == old(self).lookup(h2),
            forall|h2: u64|
                (final(self).slot_of(h2) == final(self).slot_of(hash) && h2 != hash) ==> (final(self).lookup(h2) is None),
            final(self).used == (if old(self).data@[old(self).slot_of(hash)] is None {
                if old(self).used < u64::MAX {
                    old(self).used + 1
                } else {
                    old(self).used as int
                }
            } else {
                old(self).used as int
            }),
            final(self).collisions == (if old(self).data@[old(self).slot_of(hash)] is Some {
                if old(self).collisions < u64::MAX {
                    old(self).collisions + 1
                } else {
                    old(self).collisions as int
                }
            } else {
                old(self).collisions as int
            }),
    {
        let len = self.data.len();
        let slot = (hash % (len as u64)) as usize;
        proof {
            vstd::arithmetic::div_mod::lemma_mod_bound(hash as int, len as int);
        }
        let occupied = self.data[slot].is_some();
        if occupied {
            self.collisions = if self.collisions < u64::MAX {
                self.collisions + 1
            } else {
                self.collisions
            };
        } else {
            self.used = if self.used < u64::MAX {
                self.used + 1
            } else {
                self.used
            };
        }
        self.data.set(slot, Some((value, hash)));
    }

    /// Probes for a fingerprint: the slot's entry when the stored
    /// fingerprint matches exactly, and nothing otherwise.
    pub fn get(&self, hash: u64) -> (r: Option<T>)
        requires
            self.wf(),
        ensures
            r == self.lookup(hash),
    {
        let len = self.data.len();
        let slot = (hash % (len as u64)) as usize;
        proof {
            vstd::arithmetic::div_mod::lemma_mod_bound(hash as int, len as int);
        }
        match self.data[slot] {
            Some((v, h)) => if h == hash {
                Some(v)
            } else {
                None
            },
            None => None,
        }
    }
}

/// Two different fingerprints can share a slot, but a stored entry
/// answers only to the exact fingerprint it was stored under: whenever a
/// probe for one fingerprint finds an entry, a probe for any other
/// fingerprint of the same slot finds nothing.
pub proof fn lemma_no_wrong_position_result<T: Copy>(
    t: TranspositionTable<T>,
    h1: u64,
    h2: u64,
)
    requires
        t.wf(),
        h1 != h2,
        t.lookup(h1) is Some,
        t.slot_of(h2) == t.slot_of(h1),
    ensures
        t.lookup(h2) is None,
{
}

} // verus!
