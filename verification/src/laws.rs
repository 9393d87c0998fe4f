//! The general properties of the cache, each proved over the model so that
//! it holds of every reachable state and every input.

use vstd::prelude::*;

use crate::model::{
    lemma_scan_props, spec_lookup, spec_pop, spec_promote, spec_put, victim, CacheView,
};

verus! {

/// Capacity bound: a well-formed cache never holds more live keys than its
/// capacity. Since every operation's contract preserves well-formedness,
/// `len() <= cap()` holds after any sequence of `put` calls.
pub proof fn lemma_capacity_bound<V>(s: CacheView<V>)
    requires
        s.wf(),
    ensures
        s.index.len() <= s.cap,
{
    assert(s.index.is_injective()) by {
        assert forall|x: Seq<char>, y: Seq<char>|
            x != y && s.index.dom().contains(x) && s.index.dom().contains(y) implies #[trigger] s
            .index[x] != #[trigger] s.index[y] by {
            assert(s.ring[s.index[x]].0 == x);
            assert(s.ring[s.index[y]].0 == y);
        }
    }
    s.index.lemma_injective_values_len();
    let slots = vstd::set_lib::set_int_range(0, s.ring.len() as int);
    assert(s.index.values().subset_of(slots)) by {
        assert forall|v: int| s.index.values().contains(v) implies slots.contains(v) by {
            let k = choose|k: Seq<char>|
                #[trigger] s.index.dom().contains(k) && s.index[k] == v;
            assert(s.index.contains_key(k));
        }
    }
    vstd::set_lib::lemma_int_range(0, s.ring.len() as int);
    vstd::set_lib::lemma_len_subset(s.index.values(), slots);
}

/// Round-trip: directly after `put(k, v)`, a lookup of `k` — what `get` and
/// `peek` both return — yields `v`.
pub proof fn lemma_put_then_lookup<V>(s: CacheView<V>, k: Seq<char>, v: V)
    requires
        s.wf(),
    ensures
        spec_lookup(spec_put(s, k, v), k) == Some(v),
{
    if !s.index.contains_key(k) && s.ring.len() >= s.cap {
        lemma_scan_props(s.bits, s.hand);
    }
}

/// Update, not insert: a second `put` of a key already present overwrites
/// the value in place, leaving the set of live keys — and so `len()` —
/// unchanged.
pub proof fn lemma_update_not_insert<V>(s: CacheView<V>, k: Seq<char>, v1: V, v2: V)
    requires
        s.wf(),
    ensures
        spec_put(spec_put(s, k, v1), k, v2).index == spec_put(s, k, v1).index,
        spec_lookup(spec_put(spec_put(s, k, v1), k, v2), k) == Some(v2),
{
    crate::model::lemma_put_preserves_wf(s, k, v1);
    let s1 = spec_put(s, k, v1);
    assert(s1.index.contains_key(k));
    if !s.index.contains_key(k) && s.ring.len() >= s.cap {
        lemma_scan_props(s.bits, s.hand);
    }
}

/// A put of a different key leaves a lookup of `k` unchanged as long as it
/// does not evict `k` — that is, as long as `k` is still live afterwards.
/// With the round-trip law above: once `put(k, v)` has run, lookups of `k`
/// keep returning `v` through any further insertions that do not delist `k`.
pub proof fn lemma_put_preserves_other_lookups<V>(s: CacheView<V>, k2: Seq<char>, v2: V, k: Seq<char>)
    requires
        s.wf(),
        k != k2,
        spec_put(s, k2, v2).index.contains_key(k),
    ensures
        spec_put(s, k2, v2).index[k] == s.index[k],
        spec_lookup(spec_put(s, k2, v2), k) == spec_lookup(s, k),
{
    if !s.index.contains_key(k2) && s.ring.len() >= s.cap {
        lemma_scan_props(s.bits, s.hand);
        let vi = victim(s.bits, s.hand);
        assert(s.index.contains_key(k));
        assert(s.index[k] != vi);
    }
}

/// Promotion protects from eviction: inserting a fresh key into a full
/// cache never evicts a key whose usage bit is set, as long as some slot's
/// bit is clear. The promoted key must hold its slot alone: a popped key
/// re-inserted elsewhere can leave a stale orphan copy whose eviction also
/// delists the live one.
pub proof fn lemma_promotion_protects<V>(s: CacheView<V>, k1: Seq<char>, k: Seq<char>, v: V)
    requires
        s.wf(),
        s.ring.len() == s.cap,
        s.index.contains_key(k1),
        s.bits[s.index[k1]],
        !s.index.contains_key(k),
        exists|j: int| 0 <= j < s.bits.len() && !s.bits[j],
        forall|i: int| 0 <= i < s.ring.len() && (#[trigger] s.ring[i]).0 == k1 ==> i == s.index[k1],
    ensures
        spec_put(s, k, v).index.contains_key(k1),
        spec_put(s, k, v).index[k1] == s.index[k1],
        spec_lookup(spec_put(s, k, v), k1) == spec_lookup(s, k1),
{
    lemma_scan_props(s.bits, s.hand);
    let vi = victim(s.bits, s.hand);
    assert(crate::model::scan_steps(s.bits, s.hand) < s.bits.len());
    assert(!s.bits[vi]);
    assert(vi != s.index[k1]);
    assert(s.ring[vi].0 != k1);
}

/// Pop then miss: once `pop(k)` has run, `k` is absent — a lookup misses
/// and a second `pop` removes nothing. Together with `pop`'s own contract,
/// which returns `true` exactly when `k` was live, `pop` reports a removal
/// exactly once per live insertion.
pub proof fn lemma_pop_then_miss<V>(s: CacheView<V>, k: Seq<char>)
    ensures
        !spec_pop(s, k).index.contains_key(k),
        spec_lookup(spec_pop(s, k), k) is None,
        spec_pop(spec_pop(s, k), k) == spec_pop(s, k),
{
    assert(spec_pop(spec_pop(s, k), k).index =~= spec_pop(s, k).index);
}

/// A lookup through `get` promotes but never rewrites: the values seen by
/// later lookups are exactly those seen before the promotion.
pub proof fn lemma_promote_keeps_lookups<V>(s: CacheView<V>, k1: Seq<char>, k2: Seq<char>)
    ensures
        spec_lookup(spec_promote(s, k1), k2) == spec_lookup(s, k2),
{
}

} // verus!
