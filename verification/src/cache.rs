//! The TTL-bounded response cache with single-flight fill.
//!
//! Keyed by `(Name, QType)`. A lookup returns the live entry, or reports
//! that a fill is already in flight, or registers the caller as the
//! filler. A store publishes the entry and releases the in-flight slot;
//! an abort releases the slot without publishing. On insert at capacity,
//! an expired entry is evicted first; failing that, the entry with the
//! oldest insertion time.

use vstd::prelude::*;
use crate::name::{Name, bytes_eq};

verus! {

/// Where a cached response came from.
#[derive(Clone, Copy, PartialEq, Eq, Structural, Debug)]
pub enum Origin {
    Upstream(u32),
    Synthesized,
}

/// One cached response.
pub struct CacheEntry {
    pub wire_bytes: Vec<u8>,
    pub inserted_at: u64,
    pub expires_at: u64,
    pub origin: Origin,
}

/// An entry's times are ordered.
pub open spec fn entry_wf(e: CacheEntry) -> bool {
    e.inserted_at < e.expires_at
}

/// The plain value of an entry.
pub open spec fn entry_view(e: CacheEntry) -> (Seq<u8>, u64, u64, Origin) {
    (e.wire_bytes@, e.inserted_at, e.expires_at, e.origin)
}

/// Copy an entry.
pub fn clone_entry(e: &CacheEntry) -> (r: CacheEntry)
    ensures
        entry_view(r) == entry_view(*e),
{
    CacheEntry {
        wire_bytes: crate::typo::clone_bytes(&e.wire_bytes),
        inserted_at: e.inserted_at,
        expires_at: e.expires_at,
        origin: e.origin,
    }
}

/// What the cache, the single-flight map and upstream correlation key on.
pub struct QueryKey {
    pub name: Name,
    pub qtype: u16,
}

/// The plain value of a key.
pub open spec fn key_view(k: QueryKey) -> (Seq<u8>, u16) {
    (k.name@, k.qtype)
}

/// Copy a key.
pub fn clone_key(k: &QueryKey) -> (r: QueryKey)
    ensures
        key_view(r) == key_view(*k),
{
    QueryKey { name: k.name.clone(), qtype: k.qtype }
}

/// Key equality is byte-exact on the name plus the type code.
pub fn key_eq(a: &QueryKey, b: &QueryKey) -> (r: bool)
    ensures
        r == (key_view(*a) == key_view(*b)),
{
    let r = a.qtype == b.qtype && bytes_eq(a.name.as_bytes(), b.name.as_bytes());
    proof {
        if a.qtype == b.qtype && a.name@ == b.name@ {
            assert(key_view(*a) == key_view(*b));
        }
    }
    r
}

/// What a lookup reports.
pub enum LookupResult {
    Hit(CacheEntry),
    Miss,
    Pending,
}

/// The response cache.
pub struct ResponseCache {
    entries: Vec<(QueryKey, CacheEntry)>,
    in_flight: Vec<QueryKey>,
    capacity: usize,
}

/// The stored pairs.
pub closed spec fn pairs(c: ResponseCache) -> Seq<(QueryKey, CacheEntry)> {
    c.entries@
}

/// The keys whose fill is in flight.
pub closed spec fn inflight_keys(c: ResponseCache) -> Seq<(Seq<u8>, u16)> {
    c.in_flight@.map_values(|k: QueryKey| key_view(k))
}

pub open spec fn inflight_has(c: ResponseCache, kv: (Seq<u8>, u16)) -> bool {
    inflight_keys(c).contains(kv)
}

/// Some stored pair carries this key and this entry value.
pub open spec fn has_pair(s: Seq<(QueryKey, CacheEntry)>, kv: (Seq<u8>, u16), e: CacheEntry) -> bool {
    exists|i: int|
        0 <= i < s.len() && key_view((#[trigger] s[i]).0) == kv && entry_view(s[i].1)
            == entry_view(e)
}

pub open spec fn has_key(s: Seq<(QueryKey, CacheEntry)>, kv: (Seq<u8>, u16)) -> bool {
    exists|i: int| 0 <= i < s.len() && key_view((#[trigger] s[i]).0) == kv
}

/// Some stored entry for this key is still live at `now`.
pub open spec fn live_at(c: ResponseCache, kv: (Seq<u8>, u16), now: u64) -> bool {
    exists|i: int|
        0 <= i < pairs(c).len() && key_view((#[trigger] pairs(c)[i]).0) == kv && now < pairs(
            c,
        )[i].1.expires_at
}

impl ResponseCache {
    /// Well-formedness: entry times ordered, stored keys unique, in-flight
    /// keys unique, and a positive capacity.
    pub closed spec fn wf(&self) -> bool {
        &&& self.capacity >= 1
        &&& forall|i: int| 0 <= i < self.entries@.len() ==> entry_wf((#[trigger] self.entries@[i]).1)
        &&& forall|i: int, j: int|
            0 <= i < j < self.entries@.len() ==> key_view((#[trigger] self.entries@[i]).0)
                != key_view((#[trigger] self.entries@[j]).0)
        &&& forall|i: int, j: int|
            0 <= i < j < self.in_flight@.len() ==> key_view(#[trigger] self.in_flight@[i])
                != key_view(#[trigger] self.in_flight@[j])
    }

    pub closed spec fn spec_capacity(&self) -> int {
        self.capacity as int
    }

    /// An empty cache with the given capacity.
    pub fn new(capacity: usize) -> (r: ResponseCache)
        requires
            capacity >= 1,
        ensures
            r.wf(),
            pairs(r).len() == 0,
            inflight_keys(r).len() == 0,
            r.spec_capacity() == capacity,
    {
        let r = ResponseCache { entries: Vec::new(), in_flight: Vec::new(), capacity };
        proof {
            assert(inflight_keys(r) =~= Seq::<(Seq<u8>, u16)>::empty());
        }
        r
    }

    /// Look up a key at instant `now`. A live entry is returned as a hit;
    /// otherwise the caller either joins the in-flight fill (`Pending`) or
    /// becomes the filler (`Miss`), registering the key in flight.
    pub fn lookup(&mut self, key: &QueryKey, now: u64) -> (r: LookupResult)
        requires
            old(self).wf(),
        ensures
            final(self).wf(),
            final(self).spec_capacity() == old(self).spec_capacity(),
            pairs(*final(self)) == pairs(*old(self)),
            (r is Hit) == live_at(*old(self), key_view(*key), now),
            r matches LookupResult::Hit(e) ==> has_pair(pairs(*old(self)), key_view(*key), e)
                && now < e.expires_at && inflight_keys(*final(self)) == inflight_keys(*old(self)),
            (r is Pending) == (!live_at(*old(self), key_view(*key), now) && inflight_has(
                *old(self),
                key_view(*key),
            )),
            r is Pending ==> inflight_keys(*final(self)) == inflight_keys(*old(self)),
            (r is Miss) == (!live_at(*old(self), key_view(*key), now) && !inflight_has(
                *old(self),
                key_view(*key),
            )),
            r is Miss ==> inflight_keys(*final(self)) == inflight_keys(*old(self)).push(
                key_view(*key),
            ),
    {
        let ghost kv = key_view(*key);
        let mut i: usize = 0;
        while i < self.entries.len()
            invariant
                *self == *old(self),
                self.wf(),
                kv == key_view(*key),
                i <= self.entries@.len(),
                forall|j: int| 0 <= j < i ==> key_view((#[trigger] self.entries@[j]).0) != kv || !(
                now < self.entries@[j].1.expires_at),
            decreases self.entries@.len() - i,
        {
            if key_eq(&self.entries[i].0, key) {
                if now < self.entries[i].1.expires_at {
                    let e = clone_entry(&self.entries[i].1);
                    proof {
                        assert(live_at(*self, kv, now));
                        assert(has_pair(pairs(*self), kv, e));
                    }
                    return LookupResult::Hit(e);
                }
            }
            i += 1;
        }
        proof {
            assert(!live_at(*self, kv, now));
        }
        // not live: join or register the fill
        let mut i: usize = 0;
        while i < self.in_flight.len()
            invariant
                *self == *old(self),
                self.wf(),
                kv == key_view(*key),
                !live_at(*old(self), kv, now),
                i <= self.in_flight@.len(),
                forall|j: int| 0 <= j < i ==> key_view(#[trigger] self.in_flight@[j]) != kv,
            decreases self.in_flight@.len() - i,
        {
            if key_eq(&self.in_flight[i], key) {
                proof {
                    assert(inflight_keys(*self)[i as int] == kv);
                    assert(inflight_has(*self, kv));
                }
                return LookupResult::Pending;
            }
            i += 1;
        }
        proof {
            assert forall|j: int| 0 <= j < inflight_keys(*self).len() implies inflight_keys(
                *self,
            )[j] != kv by {
                assert(inflight_keys(*self)[j] == key_view(self.in_flight@[j]));
            }
            assert(!inflight_has(*self, kv));
        }
        let ghost pre = *self;
        self.in_flight.push(clone_key(key));
        proof {
            assert(inflight_keys(*self) =~= inflight_keys(pre).push(kv));
            assert forall|a: int, b: int|
                0 <= a < b < self.in_flight@.len() implies key_view(#[trigger] self.in_flight@[a])
                != key_view(#[trigger] self.in_flight@[b]) by {
                if b == self.in_flight@.len() - 1 {
                    assert(key_view(self.in_flight@[a]) == inflight_keys(pre)[a]);
                }
            }
        }
        LookupResult::Miss
    }

    /// Release the in-flight slot for `key` without publishing an entry,
    /// so waiters can retry or report failure.
    pub fn abort(&mut self, key: &QueryKey)
        requires
            old(self).wf(),
        ensures
            final(self).wf(),
            final(self).spec_capacity() == old(self).spec_capacity(),
            pairs(*final(self)) == pairs(*old(self)),
            !inflight_has(*final(self), key_view(*key)),
            forall|kv2: (Seq<u8>, u16)|
                kv2 != key_view(*key) ==> inflight_has(*final(self), kv2) == inflight_has(
                    *old(self),
                    kv2,
                ),
    {
        let ghost kv = key_view(*key);
        let mut i: usize = 0;
        while i < self.in_flight.len()
            invariant
                *self == *old(self),
                self.wf(),
                kv == key_view(*key),
                i <= self.in_flight@.len(),
                forall|j: int| 0 <= j < i ==> key_view(#[trigger] self.in_flight@[j]) != kv,
            decreases self.in_flight@.len() - i,
        {
            if key_eq(&self.in_flight[i], key) {
                let ghost pre = *self;
                self.in_flight.remove(i);
                proof {
                    assert(inflight_keys(*self) =~= inflight_keys(pre).remove(i as int));
                    lemma_remove_unique(pre.in_flight@, i as int);
                    assert forall|kv2: (Seq<u8>, u16)| kv2 != kv implies inflight_has(*self, kv2)
                        == inflight_has(pre, kv2) by {
                        lemma_remove_membership(pre.in_flight@, i as int, kv2);
                    }
                    assert(!inflight_has(*self, kv)) by {
                        if inflight_has(*self, kv) {
                            let j = choose|j: int|
                                0 <= j < inflight_keys(*self).len() && inflight_keys(*self)[j]
                                    == kv;
                            if j < i {
                                assert(inflight_keys(*self)[j] == key_view(pre.in_flight@[j]));
                            } else {
                                assert(inflight_keys(*self)[j] == key_view(
                                    pre.in_flight@[j + 1],
                                ));
                                assert(key_view(pre.in_flight@[i as int]) == kv);
                            }
                        }
                    }
                }
                return ;
            }
            i += 1;
        }
        proof {
            assert forall|j: int| 0 <= j < inflight_keys(*self).len() implies inflight_keys(
                *self,
            )[j] != kv by {
                assert(inflight_keys(*self)[j] == key_view(self.in_flight@[j]));
            }
        }
    }
}

/// The stored pair is expired at `now`.
pub open spec fn expired_at(p: (QueryKey, CacheEntry), now: u64) -> bool {
    p.1.expires_at <= now
}

/// The pair occurs, key and entry value both, in the sequence.
pub open spec fn pair_in(s: Seq<(QueryKey, CacheEntry)>, p: (QueryKey, CacheEntry)) -> bool {
    has_pair(s, key_view(p.0), p.1)
}

impl ResponseCache {
    /// Publish an entry for `key`, waking any waiters: the entry becomes
    /// the one stored under the key and the in-flight slot is released.
    /// On insert at capacity, an expired entry is evicted first; if none
    /// is expired, the entry with the oldest insertion time goes.
    #[verifier::rlimit(100)]
    pub fn store(&mut self, key: &QueryKey, entry: CacheEntry, now: u64)
        requires
            old(self).wf(),
            entry_wf(entry),
        ensures
            final(self).wf(),
            final(self).spec_capacity() == old(self).spec_capacity(),
            has_pair(pairs(*final(self)), key_view(*key), entry),
            !inflight_has(*final(self), key_view(*key)),
            forall|kv2: (Seq<u8>, u16)|
                kv2 != key_view(*key) ==> inflight_has(*final(self), kv2) == inflight_has(
                    *old(self),
                    kv2,
                ),
            // nothing but the new pair appears
            forall|i: int|
                0 <= i < pairs(*final(self)).len() && key_view(
                    (#[trigger] pairs(*final(self))[i]).0,
                ) != key_view(*key) ==> pair_in(pairs(*old(self)), pairs(*final(self))[i]),
            // size accounting
            has_key(pairs(*old(self)), key_view(*key)) ==> pairs(*final(self)).len() == pairs(
                *old(self),
            ).len(),
            !has_key(pairs(*old(self)), key_view(*key)) && pairs(*old(self)).len() < old(
                self,
            ).spec_capacity() ==> pairs(*final(self)).len() == pairs(*old(self)).len() + 1,
            !has_key(pairs(*old(self)), key_view(*key)) && pairs(*old(self)).len() >= old(
                self,
            ).spec_capacity() ==> pairs(*final(self)).len() == pairs(*old(self)).len(),
            // below capacity or on replace, every other pair survives
            (has_key(pairs(*old(self)), key_view(*key)) || pairs(*old(self)).len() < old(
                self,
            ).spec_capacity()) ==> forall|j: int|
                0 <= j < pairs(*old(self)).len() && key_view((#[trigger] pairs(*old(self))[j]).0)
                    != key_view(*key) ==> pair_in(pairs(*final(self)), pairs(*old(self))[j]),
            // at capacity, exactly one victim goes: an expired one if any
            // entry is expired, else one with the oldest insertion time
            !has_key(pairs(*old(self)), key_view(*key)) && pairs(*old(self)).len() >= old(
                self,
            ).spec_capacity() ==> exists|vi: int|
                {
                    &&& 0 <= vi < pairs(*old(self)).len()
                    &&& ((exists|j: int|
                        0 <= j < pairs(*old(self)).len() && expired_at(
                            #[trigger] pairs(*old(self))[j],
                            now,
                        )) ==> expired_at(#[trigger] pairs(*old(self))[vi], now))
                    &&& (!(exists|j: int|
                        0 <= j < pairs(*old(self)).len() && expired_at(
                            #[trigger] pairs(*old(self))[j],
                            now,
                        )) ==> forall|j: int|
                        0 <= j < pairs(*old(self)).len() ==> pairs(*old(self))[vi].1.inserted_at
                            <= (#[trigger] pairs(*old(self))[j]).1.inserted_at)
                    &&& forall|j: int|
                        0 <= j < pairs(*old(self)).len() && j != vi ==> pair_in(
                            pairs(*final(self)),
                            #[trigger] pairs(*old(self))[j],
                        )
                },
    {
        let ghost kv = key_view(*key);
        self.abort(key);
        let ghost mid = *self;
        let n = self.entries.len();
        let mut found = false;
        let mut idx: usize = 0;
        let mut i: usize = 0;
        while i < n
            invariant
                *self == mid,
                self.wf(),
                kv == key_view(*key),
                n == self.entries@.len(),
                i <= n,
                found ==> idx < i && key_view(self.entries@[idx as int].0) == kv,
                !found ==> forall|j: int| 0 <= j < i ==> key_view(
                    (#[trigger] self.entries@[j]).0,
                ) != kv,
            decreases n - i,
        {
            if !found && key_eq(&self.entries[i].0, key) {
                found = true;
                idx = i;
            }
            i += 1;
        }
        if found {
            let ghost pre = *self;
            self.entries[idx] = (clone_key(key), entry);
            proof {
                assert(self.entries@ == pre.entries@.update(idx as int, self.entries@[idx as int]));
                assert(key_view(self.entries@[idx as int].0) == kv);
                assert(has_pair(pairs(*self), kv, entry));
                assert forall|j: int|
                    0 <= j < pairs(pre).len() && key_view((#[trigger] pairs(pre)[j]).0) != kv
                    implies pair_in(pairs(*self), pairs(pre)[j]) by {
                    assert(j != idx);
                    assert(pairs(*self)[j] == pairs(pre)[j]);
                }
                assert(has_key(pairs(pre), kv));
            }
            return ;
        }
        proof {
            assert(!has_key(pairs(mid), kv));
        }
        if self.entries.len() >= self.capacity {
            // choose a victim: the first expired entry, else the oldest
            let mut vexp = false;
            let mut vi: usize = 0;
            let mut i: usize = 0;
            while i < n
                invariant
                    *self == mid,
                    n == self.entries@.len(),
                    i <= n,
                    vexp ==> vi < n && expired_at(self.entries@[vi as int], now),
                    !vexp ==> forall|j: int| 0 <= j < i ==> !expired_at(
                        #[trigger] self.entries@[j],
                        now,
                    ),
                decreases n - i,
            {
                if !vexp && self.entries[i].1.expires_at <= now {
                    vexp = true;
                    vi = i;
                }
                i += 1;
            }
            if !vexp {
                let mut i: usize = 1;
                vi = 0;
                while i < n
                    invariant
                        *self == mid,
                        n == self.entries@.len(),
                        n >= 1,
                        i <= n,
                        vi < i,
                        forall|j: int| 0 <= j < i ==> self.entries@[vi as int].1.inserted_at <= (
                        #[trigger] self.entries@[j]).1.inserted_at,
                    decreases n - i,
                {
                    if self.entries[i].1.inserted_at < self.entries[vi].1.inserted_at {
                        vi = i;
                    }
                    i += 1;
                }
            }
            let ghost pre = *self;
            let ghost gvi = vi as int;
            self.entries.remove(vi);
            self.entries.push((clone_key(key), entry));
            proof {
                let fin = pairs(*self);
                let mold = pairs(pre);
                assert(fin == mold.remove(gvi).push(fin[fin.len() - 1]));
                assert(key_view(fin[fin.len() - 1].0) == kv);
                assert(entry_view(fin[fin.len() - 1].1) == entry_view(entry));
                assert(has_pair(fin, kv, entry));
                // survivors
                assert forall|j: int| 0 <= j < mold.len() && j != gvi implies pair_in(
                    fin,
                    #[trigger] mold[j],
                ) by {
                    let jj = if j < gvi {
                        j
                    } else {
                        j - 1
                    };
                    assert(fin[jj] == mold[j]);
                }
                // nothing new
                assert forall|i2: int|
                    0 <= i2 < fin.len() && key_view((#[trigger] fin[i2]).0) != kv implies pair_in(
                    mold,
                    fin[i2],
                ) by {
                    assert(i2 < fin.len() - 1);
                    let js = if i2 < gvi {
                        i2
                    } else {
                        i2 + 1
                    };
                    assert(fin[i2] == mold[js]);
                }
                // well-formedness: distinct keys survive removal and the
                // new key was absent
                assert forall|a: int, b: int| 0 <= a < b < fin.len() implies key_view(
                    (#[trigger] fin[a]).0,
                ) != key_view((#[trigger] fin[b]).0) by {
                    if b < fin.len() - 1 {
                        let ja = if a < gvi {
                            a
                        } else {
                            a + 1
                        };
                        let jb = if b < gvi {
                            b
                        } else {
                            b + 1
                        };
                        assert(fin[a] == mold[ja]);
                        assert(fin[b] == mold[jb]);
                    } else {
                        let ja = if a < gvi {
                            a
                        } else {
                            a + 1
                        };
                        assert(fin[a] == mold[ja]);
                        assert(key_view(fin[b].0) == kv);
                    }
                }
                assert(self.wf());
                // the victim meets the eviction rule
                if exists|j: int| 0 <= j < mold.len() && expired_at(#[trigger] mold[j], now) {
                    assert(vexp) by {
                        if !vexp {
                            let j = choose|j: int|
                                0 <= j < mold.len() && expired_at(#[trigger] mold[j], now);
                            assert(!expired_at(mold[j], now));
                        }
                    }
                    assert(expired_at(mold[gvi], now));
                }
            }
        } else {
            let ghost pre = *self;
            self.entries.push((clone_key(key), entry));
            proof {
                let fin = pairs(*self);
                let mold = pairs(pre);
                assert(fin == mold.push(fin[fin.len() - 1]));
                assert(key_view(fin[fin.len() - 1].0) == kv);
                assert(entry_view(fin[fin.len() - 1].1) == entry_view(entry));
                assert(has_pair(fin, kv, entry));
                assert forall|j: int| 0 <= j < mold.len() && key_view(
                    (#[trigger] mold[j]).0,
                ) != kv implies pair_in(fin, mold[j]) by {
                    assert(fin[j] == mold[j]);
                }
                assert forall|i2: int|
                    0 <= i2 < fin.len() && key_view((#[trigger] fin[i2]).0) != kv implies pair_in(
                    mold,
                    fin[i2],
                ) by {
                    assert(i2 < fin.len() - 1);
                    assert(fin[i2] == mold[i2]);
                }
                assert forall|a: int, b: int| 0 <= a < b < fin.len() implies key_view(
                    (#[trigger] fin[a]).0,
                ) != key_view((#[trigger] fin[b]).0) by {
                    if b < fin.len() - 1 {
                        assert(fin[a] == mold[a]);
                        assert(fin[b] == mold[b]);
                    } else {
                        assert(fin[a] == mold[a]);
                        assert(key_view(fin[b].0) == kv);
                    }
                }
                assert(self.wf());
            }
        }
    }
}

/// Single-flight: at most one fill is in flight for any key — two
/// in-flight registrations of the same key are one and the same.
pub proof fn lemma_single_flight(c: ResponseCache, kv: (Seq<u8>, u16), i: int, j: int)
    requires
        c.wf(),
        0 <= i < inflight_keys(c).len(),
        0 <= j < inflight_keys(c).len(),
        inflight_keys(c)[i] == kv,
        inflight_keys(c)[j] == kv,
    ensures
        i == j,
{
    assert(inflight_keys(c)[i] == key_view(c.in_flight@[i]));
    assert(inflight_keys(c)[j] == key_view(c.in_flight@[j]));
}

/// Freshness after a store: an entry just stored under a key is the one
/// and only entry the key maps to, and any lookup before its expiry is a
/// hit on exactly that entry.
pub proof fn lemma_store_then_lookup(c: ResponseCache, kv: (Seq<u8>, u16), e: CacheEntry, now: u64)
    requires
        c.wf(),
        has_pair(pairs(c), kv, e),
        now < e.expires_at,
    ensures
        live_at(c, kv, now),
        forall|e2: CacheEntry|
            has_pair(pairs(c), kv, e2) ==> entry_view(e2) == entry_view(e),
{
    let i = choose|i: int|
        0 <= i < pairs(c).len() && key_view((#[trigger] pairs(c)[i]).0) == kv && entry_view(
            pairs(c)[i].1,
        ) == entry_view(e);
    assert(now < pairs(c)[i].1.expires_at);
    assert(live_at(c, kv, now));
    assert forall|e2: CacheEntry| has_pair(pairs(c), kv, e2) implies entry_view(e2) == entry_view(
        e,
    ) by {
        let j = choose|j: int|
            0 <= j < pairs(c).len() && key_view((#[trigger] pairs(c)[j]).0) == kv && entry_view(
                pairs(c)[j].1,
            ) == entry_view(e2);
        if i != j {
            assert(key_view(pairs(c)[i].0) != key_view(pairs(c)[j].0));
        }
    }
}

/// Build the cache entry for a resolved reply: inserted now, expiring
/// after the clamped time-to-live, saturating at the far end of time.
pub fn make_cache_entry(wire_bytes: Vec<u8>, now: u64, ttl_s: u32, origin: Origin) -> (r:
    CacheEntry)
    requires
        now < u64::MAX,
    ensures
        entry_wf(r),
        r.wire_bytes@ == wire_bytes@,
        r.inserted_at == now,
        r.origin == origin,
        r.expires_at == if now + (ttl_s as int) * 1000 + 1 <= u64::MAX {
            if ttl_s == 0 {
                now + 1
            } else {
                now + (ttl_s as int) * 1000
            }
        } else {
            u64::MAX as int
        },
{
    let ttl_ms: u64 = (ttl_s as u64) * 1000;
    let expires_at: u64 = if now <= u64::MAX - ttl_ms - 1 {
        if ttl_ms == 0 {
            now + 1
        } else {
            now + ttl_ms
        }
    } else {
        u64::MAX
    };
    CacheEntry { wire_bytes, inserted_at: now, expires_at, origin }
}

/// Removing one element of a pairwise-distinct-key sequence keeps the
/// remaining keys pairwise distinct.
proof fn lemma_remove_unique(s: Seq<QueryKey>, i: int)
    requires
        0 <= i < s.len(),
        forall|a: int, b: int|
            0 <= a < b < s.len() ==> key_view(#[trigger] s[a]) != key_view(#[trigger] s[b]),
    ensures
        forall|a: int, b: int|
            0 <= a < b < s.remove(i).len() ==> key_view(#[trigger] s.remove(i)[a]) != key_view(
                #[trigger] s.remove(i)[b],
            ),
{
    let t = s.remove(i);
    assert forall|a: int, b: int| 0 <= a < b < t.len() implies key_view(#[trigger] t[a])
        != key_view(#[trigger] t[b]) by {
        let ia = if a < i {
            a
        } else {
            a + 1
        };
        let ib = if b < i {
            b
        } else {
            b + 1
        };
        assert(t[a] == s[ia]);
        assert(t[b] == s[ib]);
    }
}

/// Removing one key leaves membership of every other key unchanged.
proof fn lemma_remove_membership(s: Seq<QueryKey>, i: int, kv: (Seq<u8>, u16))
    requires
        0 <= i < s.len(),
        kv != key_view(s[i]),
    ensures
        s.remove(i).map_values(|k: QueryKey| key_view(k)).contains(kv) == s.map_values(
            |k: QueryKey| key_view(k),
        ).contains(kv),
{
    let t = s.remove(i);
    let tm = t.map_values(|k: QueryKey| key_view(k));
    let sm = s.map_values(|k: QueryKey| key_view(k));
    if tm.contains(kv) {
        let j = choose|j: int| 0 <= j < tm.len() && tm[j] == kv;
        let js = if j < i {
            j
        } else {
            j + 1
        };
        assert(t[j] == s[js]);
        assert(sm[js] == kv);
    }
    if sm.contains(kv) {
        let j = choose|j: int| 0 <= j < sm.len() && sm[j] == kv;
        assert(key_view(s[j]) == kv);
        assert(j != i);
        let jt = if j < i {
            j
        } else {
            j - 1
        };
        assert(t[jt] == s[j]);
        assert(tm[jt] == kv);
    }
}

} // verus!
