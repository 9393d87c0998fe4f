//! The executable cache engine, proved against the model of `model`.

use vstd::prelude::*;

use crate::bitvec::{bits_get, bits_new, bits_of, bits_set};
use crate::model::{
    spec_lookup, spec_pop, spec_promote, spec_put, wrap, CacheView,
};

verus! {

broadcast use vstd::hash_map::group_hash_map_axioms;

/// One slot of the ring: a key together with its cached value.
pub struct ClockEntry<V> {
    pub key: String,
    pub val: V,
}

impl<V> ClockEntry<V> {
    /// Pairs `key` with `val` as one ring slot.
    pub fn new(key: String, val: V) -> (r: Self)
        ensures
            r.key == key,
            r.val == val,
    {
        ClockEntry { key, val }
    }
}

/// A fixed-capacity cache with CLOCK (second-chance) eviction.
///
/// Keys are strings; values are any payload, opaque to the engine. The
/// abstract state is the [`CacheView`] that `view` returns, and every
/// operation's contract pins the whole successor state down through the
/// transition functions of [`crate::model`].
pub struct ClockCache<V> {
    map: vstd::hash_map::StringHashMap<usize>,
    entries: Vec<ClockEntry<V>>,
    bits: bit_vec::BitVec,
    cap: usize,
    idx: usize,
}

/// The slot ring as the model sees it: each slot's key characters and value.
spec fn ring_view<V>(es: Seq<ClockEntry<V>>) -> Seq<(Seq<char>, V)> {
    es.map_values(|e: ClockEntry<V>| (e.key@, e.val))
}

/// The key index as the model sees it: slot numbers as mathematical integers.
spec fn index_view(m: Map<Seq<char>, usize>) -> Map<Seq<char>, int> {
    m.map_values(|u: usize| u as int)
}

impl<V> View for ClockCache<V> {
    type V = CacheView<V>;

    closed spec fn view(&self) -> CacheView<V> {
        CacheView {
            cap: self.cap as nat,
            hand: self.idx as int,
            ring: ring_view(self.entries@),
            bits: bits_of(self.bits),
            index: index_view(self.map@),
        }
    }
}

impl<V> ClockCache<V> {
    /// The invariant that construction establishes and every operation
    /// keeps: the abstract state is well formed.
    pub open spec fn wf(&self) -> bool {
        self@.wf()
    }

    /// Create a new `ClockCache` that holds at most `cap` items.
    ///
    /// A capacity of zero is rejected here, as a contract violation: with no
    /// slot to occupy or evict, no insertion could ever be honoured.
    pub fn new(cap: usize) -> (r: ClockCache<V>)
        requires
            cap >= 1,
        ensures
            r.wf(),
            r@ == CacheView::<V>::empty(cap as nat),
    {
        let c = ClockCache {
            map: vstd::hash_map::StringHashMap::with_capacity(cap),
            entries: Vec::with_capacity(cap),
            bits: bits_new(cap, false),
            cap,
            idx: 0,
        };
        proof {
            assert(c@.ring =~= CacheView::<V>::empty(cap as nat).ring);
            assert(c@.index =~= CacheView::<V>::empty(cap as nat).index);
            assert(c@ =~= CacheView::<V>::empty(cap as nat));
        }
        c
    }

    /// Return the maximum number of key-value pairs the cache can hold.
    pub fn cap(&self) -> (r: usize)
        ensures
            r == self@.cap,
    {
        self.cap
    }

    /// Return the number of key-value pairs that are currently in the cache:
    /// the live keys of the index, never more than the capacity.
    pub fn len(&self) -> (r: usize)
        requires
            self.wf(),
        ensures
            r == self@.index.len(),
            r <= self@.cap,
    {
        proof {
            assert(self.map@.dom() =~= self@.index.dom());
            crate::laws::lemma_capacity_bound(self@);
        }
        self.map.len()
    }

    /// Return whether the given key is in the cache. No side effects: the
    /// usage bit is left alone.
    pub fn contains(&self, k: &str) -> (r: bool)
        ensures
            r == self@.index.contains_key(k@),
    {
        proof {
            assert(self.map@.dom() =~= self@.index.dom());
        }
        self.map.contains_key(k)
    }

    /// Remove a key from the cache and return whether it was present.
    ///
    /// Removal is logical: the key leaves the index only. The slot keeps its
    /// old pair as an orphan, its usage bit untouched, until the clock
    /// hand's scan overwrites it during a future full-cache insertion.
    pub fn pop(&mut self, k: &str) -> (r: bool)
        requires
            old(self).wf(),
        ensures
            final(self).wf(),
            r == old(self)@.index.contains_key(k@),
            final(self)@ == spec_pop(old(self)@, k@),
    {
        proof {
            assert(self.map@.dom() =~= self@.index.dom());
        }
        let present = self.map.contains_key(k);
        self.map.remove(k);
        proof {
            assert(index_view(self.map@) =~= spec_pop(old(self)@, k@).index);
            assert(self@ =~= spec_pop(old(self)@, k@));
            crate::model::lemma_pop_preserves_wf(old(self)@, k@);
        }
        present
    }

    /// Return the value for `k`, or `None` if it is absent. Unlike `get`,
    /// `peek` has no side effect at all: the usage bit is left alone, so the
    /// access does not count as recent for eviction purposes.
    pub fn peek<'a>(&'a mut self, k: &str) -> (r: Option<&'a V>)
        requires
            old(self).wf(),
        ensures
            *final(self) == *old(self),
            match r {
                Some(v) => spec_lookup(old(self)@, k@) == Some(*v),
                None => spec_lookup(old(self)@, k@) is None,
            },
    {
        proof {
            assert(self.map@.dom() =~= self@.index.dom());
        }
        match self.map.get(k) {
            None => None,
            Some(i) => {
                let i = *i;
                proof {
                    assert(self@.index.contains_key(k@));
                    assert(self@.index[k@] == i as int);
                }
                Some(&self.entries[i].val)
            },
        }
    }

    /// Return the value for `k`, or `None` if it is absent, and on a hit set
    /// the slot's usage bit: the promotion that spares the slot on the next
    /// eviction pass. No other part of the state changes.
    pub fn get<'a>(&'a mut self, k: &str) -> (r: Option<&'a V>)
        requires
            old(self).wf(),
        ensures
            final(self).wf(),
            final(self)@ == spec_promote(old(self)@, k@),
            match r {
                Some(v) => spec_lookup(old(self)@, k@) == Some(*v),
                None => spec_lookup(old(self)@, k@) is None,
            },
    {
        proof {
            assert(self.map@.dom() =~= self@.index.dom());
        }
        let i: usize = match self.map.get(k) {
            None => {
                return None;
            },
            Some(i) => *i,
        };
        proof {
            assert(self@.index.contains_key(k@));
            assert(self@.index[k@] == i as int);
        }
        bits_set(&mut self.bits, i, true);
        proof {
            assert(self@ =~= spec_promote(old(self)@, k@));
            crate::model::lemma_promote_preserves_wf(old(self)@, k@);
        }
        Some(&self.entries[i].val)
    }

    /// Put a key-value pair into the cache. A present key has its value
    /// overwritten in place — an update does not set the usage bit and moves
    /// nothing. An absent key takes the next free slot while the ring is
    /// filling; once the ring is full, the eviction scan walks from the
    /// clock hand, clearing set usage bits, and overwrites the first slot
    /// whose bit was clear, delisting that slot's key. The new occupant's
    /// bit is set and the hand advances past it.
    pub fn put(&mut self, k: String, v: V)
        requires
            old(self).wf(),
        ensures
            final(self).wf(),
            final(self)@ == spec_put(old(self)@, k@, v),
    {
        proof {
            assert(self.map@.dom() =~= self@.index.dom());
            crate::model::lemma_put_preserves_wf(old(self)@, k@, v);
        }
        let existing: Option<usize> = match self.map.get(k.as_str()) {
            None => None,
            Some(i) => Some(*i),
        };
        match existing {
            Some(i) => {
                proof {
                    assert(self@.index.contains_key(k@));
                    assert(self@.index[k@] == i as int);
                }
                self.entries[i] = ClockEntry::new(k, v);
                proof {
                    assert(ring_view(self.entries@) =~= spec_put(old(self)@, k@, v).ring);
                    assert(self@ =~= spec_put(old(self)@, k@, v));
                }
            },
            None => {
                proof {
                    assert(!self@.index.contains_key(k@));
                }
                if self.entries.len() < self.cap {
                    let i = self.idx;
                    proof {
                        assert(i == self.entries@.len());
                    }
                    self.entries.push(ClockEntry::new(k.clone(), v));
                    self.map.insert(k, i);
                    self.idx = if i + 1 == self.cap {
                        0
                    } else {
                        i + 1
                    };
                    proof {
                        assert(ring_view(self.entries@) =~= spec_put(old(self)@, k@, v).ring);
                        assert(index_view(self.map@) =~= spec_put(old(self)@, k@, v).index);
                        assert(self@ =~= spec_put(old(self)@, k@, v));
                    }
                } else {
                    self.evict_and_insert(k, v);
                }
            },
        }
    }

    /// The full-ring path of `put`: run the eviction scan from the hand,
    /// overwrite the victim slot with `(k, v)` and swap the keys in the
    /// index.
    fn evict_and_insert(&mut self, k: String, v: V)
        requires
            old(self).wf(),
            !old(self)@.index.contains_key(k@),
            old(self)@.ring.len() >= old(self)@.cap,
        ensures
            final(self).wf(),
            final(self)@ == spec_put(old(self)@, k@, v),
    {
        let ghost s0 = old(self)@;
        let ghost es0 = self.entries@;
        let ghost ms0 = self.map@;
        let n = self.cap;
        let ghost ni = n as int;
        let ghost h = self.idx as int;
        let ghost st = crate::model::scan_steps(s0.bits, h);
        proof {
            crate::model::lemma_put_preserves_wf(s0, k@, v);
            crate::model::lemma_scan_props(s0.bits, h);
        }
        let ghost mut d: int = 0;
        let mut usage = bits_get(&self.bits, self.idx);
        proof {
            assert(bits_of(self.bits) =~= Seq::new(
                n as nat,
                |i: int|
                    if crate::model::dist(ni, h, i) < d {
                        false
                    } else {
                        s0.bits[i]
                    },
            ));
        }
        while usage
            invariant
                s0.wf(),
                s0.cap == n as nat,
                s0.hand == h,
                s0.bits.len() == n as nat,
                st == crate::model::scan_steps(s0.bits, h),
                0 <= d <= st <= n,
                ni == n as int,
                n == self.cap,
                self.entries@ == es0,
                self.map@ == ms0,
                self.idx as int == wrap(ni, h + d),
                bits_of(self.bits) == Seq::new(
                    n as nat,
                    |i: int|
                        if crate::model::dist(ni, h, i) < d {
                            false
                        } else {
                            s0.bits[i]
                        },
                ),
                usage == (d < st),
            decreases st - d,
        {
            proof {
                crate::model::lemma_scan_props(s0.bits, h);
            }
            bits_set(&mut self.bits, self.idx, false);
            let at = self.idx;
            self.idx = if at + 1 == n {
                0
            } else {
                at + 1
            };
            usage = bits_get(&self.bits, self.idx);
            proof {
                d = d + 1;
                assert(crate::model::dist(ni, h, at as int) == d - 1);
                assert(self.idx as int == wrap(ni, h + d));
                assert(bits_of(self.bits) =~= Seq::new(
                    n as nat,
                    |i: int|
                        if crate::model::dist(ni, h, i) < d {
                            false
                        } else {
                            s0.bits[i]
                        },
                ));
                if d < st {
                    assert(crate::model::dist(ni, h, self.idx as int) == d);
                    assert(s0.bits[self.idx as int]);
                } else if d == st && st < ni {
                    assert(self.idx as int == crate::model::victim(s0.bits, h));
                    assert(!s0.bits[self.idx as int]);
                } else {
                    assert(self.idx as int == h);
                    assert(crate::model::dist(ni, h, h) == 0);
                }
            }
        }
        proof {
            assert(d == st);
            assert(self.idx as int == crate::model::victim(s0.bits, h));
            assert((self.idx as int) < s0.ring.len());
        }
        let vi = self.idx;
        bits_set(&mut self.bits, vi, true);
        proof {
            assert(bits_of(self.bits) =~= crate::model::bits_after_scan(s0.bits, h));
        }
        let old_key = self.entries[vi].key.clone();
        proof {
            assert(old_key@ == s0.ring[vi as int].0);
            assert(self.map@.dom() =~= index_view(self.map@).dom());
        }
        self.map.remove(old_key.as_str());
        self.entries[vi] = ClockEntry::new(k.clone(), v);
        self.map.insert(k, vi);
        self.idx = if vi + 1 == n {
            0
        } else {
            vi + 1
        };
        proof {
            assert(ring_view(self.entries@) =~= spec_put(s0, k@, v).ring);
            assert(index_view(self.map@) =~= spec_put(s0, k@, v).index);
            assert(self@ =~= spec_put(s0, k@, v));
        }
    }
}

} // verus!
