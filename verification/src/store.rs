//! The wallet allowlist and per-wallet watch sets.
//! Both are kept in ascending key order, as they are persisted.

use vstd::prelude::*;
use crate::keyed::{ascending, entries_map, seq_lt, KeyedMap};

verus! {

/// The views of a list of strings.
pub open spec fn texts(v: Seq<String>) -> Seq<Seq<char>> {
    v.map_values(|s: String| s@)
}

/// A copy of a list of strings.
pub fn clone_strings(v: &[String]) -> (r: Vec<String>)
    ensures
        texts(r@) == texts(v@),
        r@.len() == v@.len(),
{
    let mut r: Vec<String> = Vec::new();
    let mut i: usize = 0;
    while i < v.len()
        invariant
            i <= v@.len(),
            r@.len() == i,
            forall|j: int| 0 <= j < i ==> (#[trigger] r@[j])@ == v@[j]@,
        decreases v@.len() - i,
    {
        r.push(v[i].clone());
        i = i + 1;
    }
    assert(texts(r@) =~= texts(v@));
    r
}

/// Wallet pubkeys authorized to use this server.
pub struct Allowlist {
    wallets: KeyedMap<()>,
}

impl View for Allowlist {
    type V = Set<Seq<char>>;

    closed spec fn view(&self) -> Set<Seq<char>> {
        self.wallets@.dom()
    }
}

impl Allowlist {
    #[verifier::type_invariant]
    spec fn inv(self) -> bool {
        self.wallets.wf()
    }

    /// An empty allowlist.
    pub fn new() -> (r: Allowlist)
        ensures
            r@ == Set::<Seq<char>>::empty(),
    {
        let r = Allowlist { wallets: KeyedMap::new() };
        assert(r@ =~= Set::<Seq<char>>::empty());
        r
    }

    /// An allowlist holding persisted pubkeys (duplicates collapse).
    pub fn from_list(list: Vec<String>) -> (r: Allowlist)
        ensures
            r@ == texts(list@).to_set(),
    {
        let mut wallets: KeyedMap<()> = KeyedMap::new();
        let mut i: usize = 0;
        while i < list.len()
            invariant
                i <= list@.len(),
                wallets.wf(),
                wallets@.dom() == texts(list@.take(i as int)).to_set(),
            decreases list@.len() - i,
        {
            wallets.insert(list[i].as_str(), ());
            assert(texts(list@.take(i + 1)) =~= texts(list@.take(i as int)).push(list@[i as int]@));
            proof {
                let t0 = texts(list@.take(i as int));
                let t1 = texts(list@.take(i + 1));
                let x = list@[i as int]@;
                assert forall|k: Seq<char>| t1.to_set().contains(k) == t0.to_set().insert(x).contains(k) by {
                    if t1.contains(k) {
                        let j = choose|j: int| 0 <= j < t1.len() && t1[j] == k;
                        if j < t0.len() {
                            assert(t0[j] == k);
                        }
                    }
                    if t0.contains(k) {
                        let j = choose|j: int| 0 <= j < t0.len() && t0[j] == k;
                        assert(t1[j] == k);
                    }
                    if k == x {
                        assert(t1[i as int] == k);
                    }
                }
                assert(wallets@.dom() =~= t1.to_set());
            }
            i = i + 1;
        }
        assert(list@.take(list@.len() as int) =~= list@);
        Allowlist { wallets }
    }

    pub fn is_paired(&self, pubkey_hex: &str) -> (r: bool)
        ensures
            r == self@.contains(pubkey_hex@),
    {
        proof {
            use_type_invariant(self);
        }
        self.wallets.contains(pubkey_hex)
    }

    /// Authorizes a wallet pubkey.
    pub fn add(&mut self, pubkey_hex: &str)
        ensures
            final(self)@ == old(self)@.insert(pubkey_hex@),
    {
        proof {
            use_type_invariant(&*self);
        }
        let mut w = KeyedMap::new();
        std::mem::swap(&mut w, &mut self.wallets);
        w.insert(pubkey_hex, ());
        self.wallets = w;
        assert(self@ =~= old(self)@.insert(pubkey_hex@));
    }

    /// Revokes a wallet pubkey; returns whether it was present.
    pub fn remove(&mut self, pubkey_hex: &str) -> (r: bool)
        ensures
            r == old(self)@.contains(pubkey_hex@),
            final(self)@ == old(self)@.remove(pubkey_hex@),
    {
        proof {
            use_type_invariant(&*self);
        }
        let mut w = KeyedMap::new();
        std::mem::swap(&mut w, &mut self.wallets);
        let removed = w.remove(pubkey_hex);
        self.wallets = w;
        assert(self@ =~= old(self)@.remove(pubkey_hex@));
        removed.is_some()
    }

    /// The paired pubkeys, in ascending order.
    pub fn list(&self) -> (r: Vec<String>)
        ensures
            texts(r@).to_set() == self@,
            forall|i: int, j: int| 0 <= i < j < r@.len() ==> seq_lt(#[trigger] r@[i]@, #[trigger] r@[j]@),
    {
        proof {
            use_type_invariant(self);
            self.wallets.lemma_entries_view();
        }
        let n = self.wallets.len();
        let mut out: Vec<String> = Vec::new();
        let mut i: usize = 0;
        while i < n
            invariant
                n == self.wallets.entries().len(),
                i <= n,
                out@.len() == i,
                forall|j: int| 0 <= j < i ==> (#[trigger] out@[j])@ == self.wallets.entries()[j].0@,
            decreases n - i,
        {
            let (k, _) = self.wallets.entry_at(i);
            out.push(k.clone());
            i = i + 1;
        }
        proof {
            let e = self.wallets.entries();
            assert forall|k: Seq<char>| texts(out@).to_set().contains(k) == self@.contains(k) by {
                self.wallets.lemma_view(k);
                if texts(out@).contains(k) {
                    let j = choose|j: int| 0 <= j < texts(out@).len() && texts(out@)[j] == k;
                    assert(e[j].0@ == k);
                }
                if self@.contains(k) {
                    let j = choose|j: int| 0 <= j < e.len() && (#[trigger] e[j]).0@ == k;
                    assert(texts(out@)[j] == k);
                }
            }
            assert(texts(out@).to_set() =~= self@);
        }
        out
    }
}

/// The watch sets, with addresses taken as text.
pub open spec fn watch_view(m: Map<Seq<char>, Vec<String>>) -> Map<Seq<char>, Seq<Seq<char>>> {
    m.map_values(|v: Vec<String>| texts(v@))
}

/// A change of the watch sets: a wallet's set replaced (an empty list
/// clears it), or a wallet's set removed.
pub enum WatchStep {
    Replace(Seq<char>, Seq<Seq<char>>),
    Remove(Seq<char>),
}

/// The watch sets after one change.
pub open spec fn watch_step(m: Map<Seq<char>, Seq<Seq<char>>>, step: WatchStep) -> Map<Seq<char>, Seq<Seq<char>>> {
    match step {
        WatchStep::Replace(pk, addrs) => if addrs.len() == 0 {
            m.remove(pk)
        } else {
            m.insert(pk, addrs)
        },
        WatchStep::Remove(pk) => m.remove(pk),
    }
}

/// The watch sets after a sequence of changes, in order.
pub open spec fn watch_steps(m: Map<Seq<char>, Seq<Seq<char>>>, steps: Seq<WatchStep>) -> Map<Seq<char>, Seq<Seq<char>>>
    decreases steps.len(),
{
    if steps.len() == 0 {
        m
    } else {
        watch_step(watch_steps(m, steps.drop_last()), steps.last())
    }
}

/// Per-wallet address watch sets for the watcher.
pub struct WatchStore {
    sets: KeyedMap<Vec<String>>,
}

impl View for WatchStore {
    type V = Map<Seq<char>, Seq<Seq<char>>>;

    closed spec fn view(&self) -> Map<Seq<char>, Seq<Seq<char>>> {
        watch_view(self.sets@)
    }
}

impl WatchStore {
    #[verifier::type_invariant]
    spec fn inv(self) -> bool {
        self.sets.wf()
    }

    /// No watch sets.
    pub fn new() -> (r: WatchStore)
        ensures
            r@ == Map::<Seq<char>, Seq<Seq<char>>>::empty(),
    {
        let r = WatchStore { sets: KeyedMap::new() };
        assert(r@ =~= Map::<Seq<char>, Seq<Seq<char>>>::empty());
        r
    }

    /// Replaces the wallet's entire watch set; an empty list clears it.
    /// Returns the number of addresses now watched for the wallet.
    pub fn replace(&mut self, pubkey_hex: &str, addresses: Vec<String>) -> (r: usize)
        ensures
            r == addresses@.len(),
            final(self)@ == watch_step(old(self)@, WatchStep::Replace(pubkey_hex@, texts(addresses@))),
            addresses@.len() == 0 ==> final(self)@ == old(self)@.remove(pubkey_hex@),
            addresses@.len() > 0 ==> final(self)@ == old(self)@.insert(pubkey_hex@, texts(addresses@)),
    {
        proof {
            use_type_invariant(&*self);
        }
        let len = addresses.len();
        let ghost a = texts(addresses@);
        let mut s = KeyedMap::new();
        std::mem::swap(&mut s, &mut self.sets);
        if len == 0 {
            s.remove(pubkey_hex);
            self.sets = s;
            assert(self@ =~= old(self)@.remove(pubkey_hex@));
        } else {
            s.insert(pubkey_hex, addresses);
            self.sets = s;
            assert(self@ =~= old(self)@.insert(pubkey_hex@, a));
        }
        len
    }

    /// Drops a wallet's watch set; returns whether it had one.
    pub fn remove_wallet(&mut self, pubkey_hex: &str) -> (r: bool)
        ensures
            r == old(self)@.contains_key(pubkey_hex@),
            final(self)@ == old(self)@.remove(pubkey_hex@),
            final(self)@ == watch_step(old(self)@, WatchStep::Remove(pubkey_hex@)),
    {
        proof {
            use_type_invariant(&*self);
        }
        let mut s = KeyedMap::new();
        std::mem::swap(&mut s, &mut self.sets);
        let removed = s.remove(pubkey_hex);
        self.sets = s;
        assert(self@ =~= old(self)@.remove(pubkey_hex@));
        removed.is_some()
    }

    /// Every watch set with its owner, in ascending owner order.
    pub fn snapshot(&self) -> (r: Vec<(String, Vec<String>)>)
        ensures
            ascending(r@),
            watch_view(entries_map(r@)) == self@,
    {
        proof {
            use_type_invariant(self);
            self.sets.lemma_entries_view();
        }
        let n = self.sets.len();
        let mut out: Vec<(String, Vec<String>)> = Vec::new();
        let mut i: usize = 0;
        while i < n
            invariant
                n == self.sets.entries().len(),
                i <= n,
                out@.len() == i,
                forall|j: int| 0 <= j < i ==> (#[trigger] out@[j]).0@ == self.sets.entries()[j].0@
                    && texts(out@[j].1@) == texts(self.sets.entries()[j].1@),
            decreases n - i,
        {
            let (k, v) = self.sets.entry_at(i);
            out.push((k.clone(), clone_strings(v)));
            i = i + 1;
        }
        proof {
            let e = self.sets.entries();
            assert(ascending(out@)) by {
                assert forall|a: int, b: int| 0 <= a < b < out@.len() implies seq_lt(#[trigger] out@[a].0@, #[trigger] out@[b].0@) by {
                    assert(seq_lt(e[a].0@, e[b].0@));
                }
            }
            assert forall|k: Seq<char>| #[trigger] watch_view(entries_map(out@)).contains_key(k) == self@.contains_key(k)
                && (self@.contains_key(k) ==> watch_view(entries_map(out@))[k] == self@[k]) by {
                crate::keyed::lemma_entries_map_contains(out@, k);
                crate::keyed::lemma_entries_map_contains(e, k);
                if exists|j: int| 0 <= j < out@.len() && (#[trigger] out@[j]).0@ == k {
                    let j = choose|j: int| 0 <= j < out@.len() && (#[trigger] out@[j]).0@ == k;
                    assert(e[j].0@ == k);
                }
                if exists|j: int| 0 <= j < e.len() && (#[trigger] e[j]).0@ == k {
                    let j = choose|j: int| 0 <= j < e.len() && (#[trigger] e[j]).0@ == k;
                    assert(out@[j].0@ == k);
                }
            }
            assert(watch_view(entries_map(out@)) =~= self@);
        }
        out
    }

    /// The watch sets held in persisted entries (a later duplicate owner wins).
    pub fn from_entries(entries: Vec<(String, Vec<String>)>) -> (r: WatchStore)
        ensures
            r@ == watch_view(entries_map(entries@)),
    {
        let mut sets: KeyedMap<Vec<String>> = KeyedMap::new();
        let mut entries = entries;
        let ghost orig = entries@;
        let mut taken: Vec<(String, Vec<String>)> = Vec::new();
        // consume from the back, then insert in the given order
        while entries.len() > 0
            invariant
                entries@ + taken@.reverse() == orig,
            decreases entries@.len(),
        {
            let e = entries.pop().unwrap();
            let ghost before = taken@;
            taken.push(e);
            assert(taken@.reverse() =~= seq![e] + before.reverse());
        }
        assert(taken@.reverse() =~= orig);
        let n = taken.len();
        let mut i: usize = 0;
        assert(orig.take(0) =~= Seq::<(String, Vec<String>)>::empty());
        while taken.len() > 0
            invariant
                taken@.len() + i == n,
                n == orig.len(),
                taken@.reverse() == orig.skip(i as int),
                sets.wf(),
                sets@ == entries_map(orig.take(i as int)),
            decreases taken@.len(),
        {
            let ghost before = taken@;
            let (k, v) = taken.pop().unwrap();
            assert(orig[i as int] == (k, v)) by {
                assert(before.reverse()[0] == before.last());
            }
            sets.insert(k.as_str(), v);
            assert(orig.take(i + 1).drop_last() =~= orig.take(i as int));
            assert(taken@.reverse() =~= orig.skip(i + 1)) by {
                assert(before.reverse().drop_first() =~= taken@.reverse());
            }
            i = i + 1;
        }
        assert(orig.take(n as int) =~= orig);
        WatchStore { sets }
    }
}

} // verus!
