//! The mathematical model of the cache: an abstract state, the well-formedness
//! predicate that every operation preserves, and the transition functions that
//! the executable operations are proved to follow.

use vstd::prelude::*;

verus! {

/// The abstract state of a clock cache.
///
/// - `cap`: the fixed capacity set at construction.
/// - `hand`: the clock hand, the slot where the next append or eviction scan
///   starts.
/// - `ring`: the slot ring, each occupied slot as a pair of key (as its
///   character sequence) and value.
/// - `bits`: the usage bit of each slot; `true` spares the slot on the next
///   scan pass.
/// - `index`: the key index, mapping each live key to its slot.
#[verifier::ext_equal]
pub struct CacheView<V> {
    pub cap: nat,
    pub hand: int,
    pub ring: Seq<(Seq<char>, V)>,
    pub bits: Seq<bool>,
    pub index: Map<Seq<char>, int>,
}

impl<V> CacheView<V> {
    /// Mutual consistency of the substructures: the usage vector spans the
    /// whole capacity, the ring never outgrows it, the hand points at the
    /// next append slot while the ring is filling and stays in range after,
    /// and every live key's slot really holds that key. A popped key leaves
    /// its slot behind as an orphan, so a slot's key need not be live.
    pub open spec fn wf(self) -> bool {
        &&& self.cap > 0
        &&& self.bits.len() == self.cap
        &&& self.ring.len() <= self.cap
        &&& 0 <= self.hand < self.cap
        &&& self.ring.len() < self.cap ==> self.hand == self.ring.len()
        &&& self.index.dom().finite()
        &&& forall|k: Seq<char>| #[trigger] self.index.contains_key(k) ==> 0 <= self.index[k]
            < self.ring.len() && self.ring[self.index[k]].0 == k
    }

    /// The empty cache of capacity `cap`.
    pub open spec fn empty(cap: nat) -> CacheView<V> {
        CacheView {
            cap,
            hand: 0,
            ring: Seq::empty(),
            bits: Seq::new(cap, |i: int| false),
            index: Map::empty(),
        }
    }
}

/// Reduces `j`, expected in `[0, 2n)`, into the ring range `[0, n)`.
pub open spec fn wrap(n: int, j: int) -> int {
    if j >= n {
        j - n
    } else {
        j
    }
}

/// The number of slots the hand passes from `h` (inclusive) to reach `i` in
/// a ring of `n` slots.
pub open spec fn dist(n: int, h: int, i: int) -> int {
    if i >= h {
        i - h
    } else {
        i - h + n
    }
}

/// Steps the eviction scan still takes when it has already advanced `d`
/// slots from `h`: the least `e >= d` whose slot's usage bit is clear, or
/// the full revolution `bits.len()` when every bit from `d` on is set.
pub open spec fn scan_steps_from(bits: Seq<bool>, h: int, d: int) -> int
    decreases bits.len() - d,
{
    if d >= bits.len() {
        bits.len() as int
    } else if !bits[wrap(bits.len() as int, h + d)] {
        d
    } else {
        scan_steps_from(bits, h, d + 1)
    }
}

/// Steps the eviction scan takes from hand `h` before it stops: the cyclic
/// distance to the first clear usage bit, or one full revolution when every
/// bit is set (then the scan stops back at `h`, whose bit it cleared first).
pub open spec fn scan_steps(bits: Seq<bool>, h: int) -> int {
    scan_steps_from(bits, h, 0)
}

/// The victim slot that the eviction scan starting at hand `h` selects.
pub open spec fn victim(bits: Seq<bool>, h: int) -> int {
    wrap(bits.len() as int, h + scan_steps(bits, h))
}

/// The usage vector after the eviction scan from hand `h`: every bit the
/// scan passed over is cleared, and the victim's bit is set for the fresh
/// occupant.
pub open spec fn bits_after_scan(bits: Seq<bool>, h: int) -> Seq<bool> {
    Seq::new(
        bits.len(),
        |i: int|
            if i == victim(bits, h) {
                true
            } else if dist(bits.len() as int, h, i) < scan_steps(bits, h) {
                false
            } else {
                bits[i]
            },
    )
}

/// The state after `put(k, v)`.
///
/// A present key has its value overwritten in place: no change to occupancy,
/// usage bits or the hand. An absent key is appended while the ring is still
/// filling, with its slot registered and the hand advanced; once the ring is
/// full, the eviction scan picks a victim slot, whose key leaves the index
/// and whose usage bit is set for the new pair.
pub open spec fn spec_put<V>(s: CacheView<V>, k: Seq<char>, v: V) -> CacheView<V> {
    if s.index.contains_key(k) {
        CacheView { ring: s.ring.update(s.index[k], (k, v)), ..s }
    } else if s.ring.len() < s.cap {
        CacheView {
            ring: s.ring.push((k, v)),
            index: s.index.insert(k, s.ring.len() as int),
            hand: wrap(s.cap as int, s.hand + 1),
            ..s
        }
    } else {
        CacheView {
            ring: s.ring.update(victim(s.bits, s.hand), (k, v)),
            bits: bits_after_scan(s.bits, s.hand),
            index: s.index.remove(s.ring[victim(s.bits, s.hand)].0).insert(
                k,
                victim(s.bits, s.hand),
            ),
            hand: wrap(s.cap as int, victim(s.bits, s.hand) + 1),
            ..s
        }
    }
}

/// The state after `get(k)`: a hit sets the slot's usage bit (the
/// promotion); a miss changes nothing.
pub open spec fn spec_promote<V>(s: CacheView<V>, k: Seq<char>) -> CacheView<V> {
    if s.index.contains_key(k) {
        CacheView { bits: s.bits.update(s.index[k], true), ..s }
    } else {
        s
    }
}

/// What a lookup of `k` returns: the value in `k`'s slot, or absence.
pub open spec fn spec_lookup<V>(s: CacheView<V>, k: Seq<char>) -> Option<V> {
    if s.index.contains_key(k) {
        Some(s.ring[s.index[k]].1)
    } else {
        None
    }
}

/// The state after `pop(k)`: the key leaves the index and nothing else
/// changes; the slot keeps its old pair as an orphan until a future scan
/// overwrites it.
pub open spec fn spec_pop<V>(s: CacheView<V>, k: Seq<char>) -> CacheView<V> {
    CacheView { index: s.index.remove(k), ..s }
}

/// What the recursive definition of the scan amounts to: the scan stops at
/// the first clear bit at or after `d` steps from the hand, and passes only
/// set bits on the way; a full revolution means every bit was set.
pub proof fn lemma_scan_steps_from_props(bits: Seq<bool>, h: int, d: int)
    requires
        0 <= h < bits.len(),
        0 <= d <= bits.len(),
    ensures
        d <= scan_steps_from(bits, h, d) <= bits.len(),
        scan_steps_from(bits, h, d) < bits.len() ==> !bits[wrap(
            bits.len() as int,
            h + scan_steps_from(bits, h, d),
        )],
        forall|i: int|
            0 <= i < bits.len() && d <= #[trigger] dist(bits.len() as int, h, i)
                < scan_steps_from(bits, h, d) ==> bits[i],
    decreases bits.len() - d,
{
    let n = bits.len() as int;
    if d < n && bits[wrap(n, h + d)] {
        lemma_scan_steps_from_props(bits, h, d + 1);
        assert forall|i: int|
            0 <= i < n && d <= dist(n, h, i) < scan_steps_from(bits, h, d) implies bits[i] by {
            if dist(n, h, i) == d {
                assert(i == wrap(n, h + d));
            }
        }
    }
}

/// The scan's stopping point, stated over the whole revolution: the victim
/// is in range, the bits the scan passed were all set, and when any bit at
/// all is clear the victim's own bit was clear.
pub proof fn lemma_scan_props(bits: Seq<bool>, h: int)
    requires
        0 <= h < bits.len(),
    ensures
        0 <= scan_steps(bits, h) <= bits.len(),
        0 <= victim(bits, h) < bits.len(),
        scan_steps(bits, h) < bits.len() ==> !bits[victim(bits, h)],
        scan_steps(bits, h) == bits.len() ==> forall|i: int| 0 <= i < bits.len() ==> bits[i],
        forall|i: int|
            0 <= i < bits.len() && #[trigger] dist(bits.len() as int, h, i) < scan_steps(bits, h)
                ==> bits[i],
{
    let n = bits.len() as int;
    lemma_scan_steps_from_props(bits, h, 0);
    if scan_steps(bits, h) == n {
        assert forall|i: int| 0 <= i < n implies bits[i] by {
            assert(dist(n, h, i) < n);
        }
    }
}

/// Every operation preserves well-formedness: here for `put`, the one
/// operation that reshapes the ring and the index.
pub proof fn lemma_put_preserves_wf<V>(s: CacheView<V>, k: Seq<char>, v: V)
    requires
        s.wf(),
    ensures
        spec_put(s, k, v).wf(),
{
    if s.index.contains_key(k) {
    } else if s.ring.len() < s.cap {
    } else {
        lemma_scan_props(s.bits, s.hand);
    }
}

/// `get` preserves well-formedness: promotion only sets a usage bit.
pub proof fn lemma_promote_preserves_wf<V>(s: CacheView<V>, k: Seq<char>)
    requires
        s.wf(),
    ensures
        spec_promote(s, k).wf(),
{
}

/// `pop` preserves well-formedness: the index only shrinks.
pub proof fn lemma_pop_preserves_wf<V>(s: CacheView<V>, k: Seq<char>)
    requires
        s.wf(),
    ensures
        spec_pop(s, k).wf(),
{
}

} // verus!
