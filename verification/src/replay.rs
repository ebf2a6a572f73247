//! Replay protection: the cache of seen envelope ids.
//!
//! Offline delivery means legitimate messages can arrive days late, so
//! timestamps cannot be the replay defense; envelope ids are. Entries are
//! pruned once older than `RETENTION_SECS`.

use vstd::prelude::*;
use crate::keyed::{ascending, entries_map, lemma_entries_map_contains, seq_lt, KeyedMap, lemma_seq_lt_irreflexive};

verus! {

/// 10 days: outlives the gift-wrap expiration (9 days including the
/// timestamp tweak) with margin.
pub const RETENTION_SECS: u64 = 864000;

/// An id first seen at `ts` is still remembered at `now`.
pub open spec fn live(ts: u64, now: u64) -> bool {
    (if now >= ts { now - ts } else { 0 }) < RETENTION_SECS
}

/// The cache after dropping ids older than the retention window.
pub open spec fn pruned(m: Map<Seq<char>, u64>, now: u64) -> Map<Seq<char>, u64> {
    Map::new(|k: Seq<char>| m.contains_key(k) && live(m[k], now), |k: Seq<char>| m[k])
}

pub struct ReplayCache {
    seen: KeyedMap<u64>,
}

impl View for ReplayCache {
    type V = Map<Seq<char>, u64>;

    /// Envelope id -> first-seen unix time.
    closed spec fn view(&self) -> Map<Seq<char>, u64> {
        self.seen@
    }
}

impl ReplayCache {
    #[verifier::type_invariant]
    spec fn inv(self) -> bool {
        self.seen.wf()
    }

    /// An empty cache.
    pub fn new() -> (r: ReplayCache)
        ensures
            r@ == Map::<Seq<char>, u64>::empty(),
    {
        ReplayCache { seen: KeyedMap::new() }
    }

    /// A cache holding persisted entries (a later duplicate id wins).
    pub fn from_entries(entries: Vec<(String, u64)>) -> (r: ReplayCache)
        ensures
            r@ == entries_map(entries@),
    {
        let mut seen = KeyedMap::new();
        let mut i: usize = 0;
        while i < entries.len()
            invariant
                i <= entries@.len(),
                seen.wf(),
                seen@ == entries_map(entries@.take(i as int)),
            decreases entries@.len() - i,
        {
            seen.insert(entries[i].0.as_str(), entries[i].1);
            assert(entries@.take(i + 1).drop_last() =~= entries@.take(i as int));
            i = i + 1;
        }
        assert(entries@.take(entries@.len() as int) =~= entries@);
        ReplayCache { seen }
    }

    /// The entries to persist, in ascending id order.
    pub fn entries(&self) -> (r: Vec<(String, u64)>)
        ensures
            entries_map(r@) == self@,
            forall|i: int, j: int| 0 <= i < j < r@.len() ==> seq_lt(#[trigger] r@[i].0@, #[trigger] r@[j].0@),
    {
        proof {
            use_type_invariant(self);
        }
        let mut out: Vec<(String, u64)> = Vec::new();
        let n = self.seen.len();
        let mut i: usize = 0;
        while i < n
            invariant
                n == self.seen.entries().len(),
                i <= n,
                out@.len() == i,
                forall|j: int| 0 <= j < i ==> (#[trigger] out@[j]) == self.seen.entries()[j],
            decreases n - i,
        {
            let (k, v) = self.seen.entry_at(i);
            out.push((k.clone(), *v));
            i = i + 1;
        }
        assert(out@ =~= self.seen.entries());
        proof {
            self.seen.lemma_entries_view();
        }
        out
    }

    /// Returns true if the id is new (and records it); false if it is a
    /// replay and must be dropped. Ids past the retention window are
    /// forgotten first.
    pub fn check_and_insert(&mut self, id: &str, now: u64) -> (r: bool)
        ensures
            r == !pruned(old(self)@, now).contains_key(id@),
            r ==> final(self)@ == pruned(old(self)@, now).insert(id@, now),
            !r ==> final(self)@ == pruned(old(self)@, now),
    {
        proof {
            use_type_invariant(&*self);
        }
        let mut old_seen = KeyedMap::new();
        std::mem::swap(&mut old_seen, &mut self.seen);
        let ghost o = old_seen.entries();
        let ghost om = old_seen@;
        proof {
            old_seen.lemma_entries_view();
        }
        let v = old_seen.into_entries();
        let mut kept: KeyedMap<u64> = KeyedMap::new();
        let mut i: usize = 0;
        assert(o.take(0) =~= Seq::<(String, u64)>::empty());
        while i < v.len()
            invariant
                v@ == o,
                ascending(o),
                i <= o.len(),
                kept.wf(),
                kept@ == pruned(entries_map(o.take(i as int)), now),
                forall|a: int, b: int|
                    0 <= a < kept.entries().len() && i <= b < o.len() ==> seq_lt(
                        #[trigger] kept.entries()[a].0@,
                        #[trigger] o[b].0@,
                    ),
            decreases o.len() - i,
        {
            let ghost prev = o.take(i as int);
            let ghost next = o.take(i + 1);
            assert(next.drop_last() =~= prev);
            assert(next.last() == o[i as int]);
            let ghost k = o[i as int].0@;
            proof {
                lemma_entries_map_contains(prev, k);
                lemma_seq_lt_irreflexive(k);
                assert forall|j: int| 0 <= j < prev.len() implies (#[trigger] prev[j]).0@ != k by {
                    assert(prev[j] == o[j]);
                }
            }
            let ts = v[i].1;
            let age = now.saturating_sub(ts);
            if age < RETENTION_SECS {
                let ghost before = kept.entries();
                if kept.len() > 0 {
                    assert(seq_lt(before.last().0@, k));
                }
                kept.push_greatest(v[i].0.clone(), ts);
                assert forall|a: int, b: int|
                    0 <= a < kept.entries().len() && i + 1 <= b < o.len() implies seq_lt(
                    #[trigger] kept.entries()[a].0@,
                    #[trigger] o[b].0@,
                ) by {
                    if a < before.len() {
                        assert(kept.entries()[a] == before[a]);
                    } else {
                        assert(seq_lt(o[i as int].0@, o[b].0@));
                    }
                }
                assert(kept@ =~= pruned(entries_map(next), now));
            } else {
                assert(kept@ =~= pruned(entries_map(next), now));
            }
            i = i + 1;
        }
        assert(o.take(o.len() as int) =~= o);
        let fresh = !kept.contains(id);
        if fresh {
            kept.insert(id, now);
        }
        self.seen = kept;
        fresh
    }
}

} // verus!
