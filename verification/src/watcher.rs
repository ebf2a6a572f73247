//! The watcher's decisions: which watched
//! transactions are news to a wallet, and the `notify/new_tx` envelopes
//! that tell it. Every interval the app snapshots the paired wallets'
//! watch sets, asks the backend for the addresses' histories, and hands
//! the answers here.
//!
//! Against the last known txid -> height map of a wallet:
//! - a txid not in the map is a new transaction (mempool if height 0);
//! - a txid at height 0 that now has a height was newly confirmed;
//! - anything else, including dropped transactions, is silent.
//! The first observation of a wallet is silent.

use vstd::prelude::*;
use crate::chain::{address_script, hash_display, parse_address, txid_display};
use crate::config::{parse_u64, parsed_u64, Network};
use crate::history::{clamp_height, HistoryEntry};
use crate::json::{json_array, json_str, json_u64, member_names, member_value, put, JsonValue};
use crate::keyed::{ascending, entries_map, lemma_entries_map_contains, seq_lt, KeyedMap};
use crate::store::{clone_strings, texts, Allowlist};
use crate::text::{owned, str_eq};

verus! {

/// Rows of history queried per backend batch.
pub const BATCH: usize = 200;

/// A txid -> height map of one wallet.
pub struct TxHeights {
    map: KeyedMap<u64>,
}

impl View for TxHeights {
    type V = Map<Seq<char>, u64>;

    closed spec fn view(&self) -> Map<Seq<char>, u64> {
        self.map@
    }
}

impl TxHeights {
    #[verifier::type_invariant]
    spec fn inv(self) -> bool {
        self.map.wf()
    }

    pub fn new() -> (r: TxHeights)
        ensures
            r@ == Map::<Seq<char>, u64>::empty(),
    {
        TxHeights { map: KeyedMap::new() }
    }

    /// The map persisted entries stand for (a later duplicate txid wins).
    pub fn from_entries(list: &Vec<(String, u64)>) -> (r: TxHeights)
        ensures
            r@ == entries_map(list@),
    {
        let mut r = TxHeights::new();
        let mut i: usize = 0;
        while i < list.len()
            invariant
                i <= list@.len(),
                r@ == entries_map(list@.take(i as int)),
            decreases list@.len() - i,
        {
            assert(list@.take(i + 1).drop_last() =~= list@.take(i as int));
            r.insert(list[i].0.as_str(), list[i].1);
            i = i + 1;
        }
        assert(list@.take(list@.len() as int) =~= list@);
        r
    }

    /// Records `height` for `txid`.
    pub fn insert(&mut self, txid: &str, height: u64)
        ensures
            final(self)@ == old(self)@.insert(txid@, height),
    {
        proof {
            use_type_invariant(&*self);
        }
        let mut m = KeyedMap::new();
        std::mem::swap(&mut m, &mut self.map);
        m.insert(txid, height);
        self.map = m;
    }

    /// The height recorded for `txid`.
    pub fn get(&self, txid: &str) -> (r: Option<u64>)
        ensures
            r is Some <==> self@.contains_key(txid@),
            r matches Some(h) ==> self@[txid@] == h,
    {
        proof {
            use_type_invariant(self);
        }
        match self.map.get(txid) {
            Some(h) => Some(*h),
            None => None,
        }
    }

    /// The entries, in ascending txid order.
    pub fn entries(&self) -> (r: Vec<(String, u64)>)
        ensures
            ascending(r@),
            entries_map(r@) == self@,
    {
        proof {
            use_type_invariant(self);
            self.map.lemma_entries_view();
        }
        let n = self.map.len();
        let mut out: Vec<(String, u64)> = Vec::new();
        let mut i: usize = 0;
        while i < n
            invariant
                n == self.map.entries().len(),
                i <= n,
                out@.len() == i,
                forall|j: int| 0 <= j < i ==> (#[trigger] out@[j]).0@ == self.map.entries()[j].0@ && out@[j].1 == self.map.entries()[j].1,
            decreases n - i,
        {
            let (k, v) = self.map.entry_at(i);
            out.push((k.clone(), *v));
            i = i + 1;
        }
        proof {
            let e = self.map.entries();
            assert(ascending(out@)) by {
                assert forall|a: int, b: int| 0 <= a < b < out@.len() implies seq_lt(#[trigger] out@[a].0@, #[trigger] out@[b].0@) by {
                    assert(seq_lt(e[a].0@, e[b].0@));
                }
            }
            assert forall|k: Seq<char>| #[trigger] entries_map(out@).contains_key(k) == self@.contains_key(k)
                && (self@.contains_key(k) ==> entries_map(out@)[k] == self@[k]) by {
                lemma_entries_map_contains(out@, k);
                lemma_entries_map_contains(e, k);
                if exists|j: int| 0 <= j < out@.len() && (#[trigger] out@[j]).0@ == k {
                    let j = choose|j: int| 0 <= j < out@.len() && (#[trigger] out@[j]).0@ == k;
                    assert(e[j].0@ == k);
                }
                if exists|j: int| 0 <= j < e.len() && (#[trigger] e[j]).0@ == k {
                    let j = choose|j: int| 0 <= j < e.len() && (#[trigger] e[j]).0@ == k;
                    assert(out@[j].0@ == k);
                }
            }
            assert(entries_map(out@) =~= self@);
        }
        out
    }
}

/// A change of `txid` to `height` is news: the txid was unknown, or it was
/// in the mempool and now has a height.
pub open spec fn is_news(known: Map<Seq<char>, u64>, txid: Seq<char>, height: u64) -> bool {
    !known.contains_key(txid) || (known[txid] == 0 && height > 0)
}

/// `x` is among the first `n` entries of `s`.
#[verifier::opaque]
pub open spec fn among(s: Seq<(String, u64)>, n: int, x: (String, u64)) -> bool {
    exists|b: int| 0 <= b < n && s[b] == x
}

proof fn lemma_diff_step(
    known: Map<Seq<char>, u64>,
    cur: Seq<(String, u64)>,
    before: Seq<(String, u64)>,
    out: Seq<(String, u64)>,
    i: int,
    news: bool,
)
    requires
        0 <= i < cur.len(),
        ascending(cur),
        ascending(before),
        news == is_news(known, cur[i].0@, cur[i].1),
        news ==> out == before.push(cur[i]),
        !news ==> out == before,
        forall|a: int, b: int| 0 <= a < before.len() && i <= b < cur.len() ==> seq_lt(#[trigger] before[a].0@, #[trigger] cur[b].0@),
        forall|a: int| 0 <= a < before.len() ==> among(cur, i, #[trigger] before[a]),
        forall|a: int| 0 <= a < before.len() ==> is_news(known, (#[trigger] before[a]).0@, before[a].1),
        forall|b: int| 0 <= b < i && is_news(known, (#[trigger] cur[b]).0@, cur[b].1) ==> among(before, before.len() as int, cur[b]),
    ensures
        ascending(out),
        forall|a: int, b: int| 0 <= a < out.len() && i + 1 <= b < cur.len() ==> seq_lt(#[trigger] out[a].0@, #[trigger] cur[b].0@),
        forall|a: int| 0 <= a < out.len() ==> among(cur, i + 1, #[trigger] out[a]),
        forall|a: int| 0 <= a < out.len() ==> is_news(known, (#[trigger] out[a]).0@, out[a].1),
        forall|b: int| 0 <= b < i + 1 && is_news(known, (#[trigger] cur[b]).0@, cur[b].1) ==> among(out, out.len() as int, cur[b]),
{
    reveal(among);
    assert forall|a: int, b: int| 0 <= a < out.len() && i + 1 <= b < cur.len() implies seq_lt(#[trigger] out[a].0@, #[trigger] cur[b].0@) by {
        if a < before.len() {
            assert(out[a] == before[a]);
        } else {
            assert(out[a] == cur[i]);
            assert(seq_lt(cur[i].0@, cur[b].0@));
        }
    }
    assert(ascending(out)) by {
        assert forall|a: int, b: int| 0 <= a < b < out.len() implies seq_lt(#[trigger] out[a].0@, #[trigger] out[b].0@) by {
            if b < before.len() {
                assert(out[a] == before[a] && out[b] == before[b]);
            } else {
                assert(out[a] == before[a]);
                assert(out[b] == cur[i]);
            }
        }
    }
    assert forall|a: int| 0 <= a < out.len() implies among(cur, i + 1, #[trigger] out[a]) by {
        if a < before.len() {
            assert(out[a] == before[a]);
            assert(among(cur, i, before[a]));
            let b = choose|b: int| 0 <= b < i && cur[b] == before[a];
            assert(cur[b] == out[a]);
        } else {
            assert(cur[i] == out[a]);
        }
    }
    assert forall|a: int| 0 <= a < out.len() implies is_news(known, (#[trigger] out[a]).0@, out[a].1) by {
        if a < before.len() {
            assert(out[a] == before[a]);
        }
    }
    assert forall|b: int| 0 <= b < i + 1 && is_news(known, (#[trigger] cur[b]).0@, cur[b].1) implies among(out, out.len() as int, cur[b]) by {
        if b < i {
            assert(among(before, before.len() as int, cur[b]));
            let a = choose|a: int| 0 <= a < before.len() && before[a] == cur[b];
            assert(out[a] == before[a]);
        } else {
            assert(out[before.len() as int] == cur[b]);
        }
    }
}

/// `r` lists the notifications from `known` to `current`: none at a first
/// observation (`known` is `None`); otherwise exactly the txids of
/// `current` that are news, each with its current height, in ascending
/// txid order.
pub open spec fn is_diff(known: Option<Map<Seq<char>, u64>>, current: Map<Seq<char>, u64>, r: Seq<(String, u64)>) -> bool {
    &&& ascending(r)
    &&& known is None ==> r.len() == 0
    &&& known matches Some(k) ==> forall|i: int| 0 <= i < r.len() ==> current.contains_key((#[trigger] r[i]).0@)
        && current[r[i].0@] == r[i].1 && is_news(k, r[i].0@, r[i].1)
    &&& known matches Some(k) ==> forall|t: Seq<char>| #[trigger] current.contains_key(t) && is_news(k, t, current[t])
        ==> exists|i: int| 0 <= i < r.len() && (#[trigger] r[i]).0@ == t
}

/// Which notifications a state transition implies: `known` is `None` at a
/// wallet's first observation, which notifies nothing. Otherwise each
/// txid of `current` that is news, with its height, in ascending txid order.
pub fn diff(known: Option<&TxHeights>, current: &TxHeights) -> (r: Vec<(String, u64)>)
    ensures
        is_diff(
            match known {
                Some(k) => Some(k@),
                None => None,
            },
            current@,
            r@,
        ),
{
    let known = match known {
        Some(k) => k,
        None => return Vec::new(),
    };
    let cur = current.entries();
    let mut out: Vec<(String, u64)> = Vec::new();
    let mut i: usize = 0;
    while i < cur.len()
        invariant
            i <= cur@.len(),
            ascending(cur@),
            entries_map(cur@) == current@,
            ascending(out@),
            forall|a: int, b: int| 0 <= a < out@.len() && i <= b < cur@.len() ==> seq_lt(#[trigger] out@[a].0@, #[trigger] cur@[b].0@),
            forall|a: int| 0 <= a < out@.len() ==> among(cur@, i as int, #[trigger] out@[a]),
            forall|a: int| 0 <= a < out@.len() ==> is_news(known@, (#[trigger] out@[a]).0@, out@[a].1),
            forall|b: int| 0 <= b < i && is_news(known@, (#[trigger] cur@[b]).0@, cur@[b].1) ==> among(out@, out@.len() as int, cur@[b]),
        decreases cur@.len() - i,
    {
        let news = match known.get(cur[i].0.as_str()) {
            None => true,
            Some(0) => cur[i].1 > 0,
            Some(_) => false,
        };
        let ghost before = out@;
        assert(news == is_news(known@, cur@[i as int].0@, cur@[i as int].1));
        if news {
            out.push((cur[i].0.clone(), cur[i].1));
        }
        proof {
            lemma_diff_step(known@, cur@, before, out@, i as int, news);
        }
        i = i + 1;
    }
    proof {
        reveal(among);
        assert forall|a: int| 0 <= a < out@.len() implies current@.contains_key((#[trigger] out@[a]).0@)
            && current@[out@[a].0@] == out@[a].1 && is_news(known@, out@[a].0@, out@[a].1) by {
            assert(among(cur@, cur@.len() as int, out@[a]));
            let b = choose|b: int| 0 <= b < cur@.len() && cur@[b] == out@[a];
            lemma_entries_map_contains(cur@, cur@[b].0@);
        }
        assert forall|t: Seq<char>| #[trigger] current@.contains_key(t) && is_news(known@, t, current@[t])
            implies exists|a: int| 0 <= a < out@.len() && (#[trigger] out@[a]).0@ == t by {
            lemma_entries_map_contains(cur@, t);
            let b = choose|b: int| 0 <= b < cur@.len() && (#[trigger] cur@[b]).0@ == t;
            assert(cur@[b].1 == current@[t]);
            assert(among(out@, out@.len() as int, cur@[b]));
            let a = choose|a: int| 0 <= a < out@.len() && out@[a] == cur@[b];
            assert(out@[a].0@ == t);
        }
    }
    out
}

/// The watched addresses that are valid for `network`, in order; a bad
/// stored address is skipped.
pub open spec fn watchable(addrs: Seq<Seq<char>>, network: Network) -> Seq<Seq<char>>
    decreases addrs.len(),
{
    if addrs.len() == 0 {
        Seq::empty()
    } else {
        let rest = watchable(addrs.drop_last(), network);
        if address_script(addrs.last(), network) is Some {
            rest.push(addrs.last())
        } else {
            rest
        }
    }
}

/// Re-validates a wallet's watched addresses, keeping each valid one with
/// its scriptPubKey.
pub fn watchable_addresses(addrs: &Vec<String>, network: Network) -> (r: Vec<(String, Vec<u8>)>)
    ensures
        r@.map_values(|a: (String, Vec<u8>)| a.0@) == watchable(texts(addrs@), network),
        forall|i: int| 0 <= i < r@.len() ==> Some((#[trigger] r@[i]).1@) == address_script(r@[i].0@, network),
{
    let mut out: Vec<(String, Vec<u8>)> = Vec::new();
    let mut i: usize = 0;
    while i < addrs.len()
        invariant
            i <= addrs@.len(),
            out@.map_values(|a: (String, Vec<u8>)| a.0@) == watchable(texts(addrs@.take(i as int)), network),
            forall|k: int| 0 <= k < out@.len() ==> Some((#[trigger] out@[k]).1@) == address_script(out@[k].0@, network),
        decreases addrs@.len() - i,
    {
        let ghost before = out@;
        assert(texts(addrs@.take(i + 1)).drop_last() =~= texts(addrs@.take(i as int)));
        assert(texts(addrs@.take(i + 1)).last() == addrs@[i as int]@);
        match parse_address(addrs[i].as_str(), network) {
            Some(script) => {
                out.push((addrs[i].clone(), script));
                assert(out@.map_values(|a: (String, Vec<u8>)| a.0@) =~= before.map_values(|a: (String, Vec<u8>)| a.0@).push(addrs@[i as int]@));
            },
            None => {},
        }
        i = i + 1;
    }
    assert(addrs@.take(addrs@.len() as int) =~= addrs@);
    out
}

/// The `[start, end)` ranges that cut `n` rows into backend batches of
/// `BATCH`.
pub fn batch_ranges(n: usize) -> (r: Vec<(usize, usize)>)
    ensures
        r@.len() == (n + BATCH - 1) / BATCH as int,
        forall|k: int| 0 <= k < r@.len() ==> (#[trigger] r@[k]).0 == k * BATCH as int
            && r@[k].1 == (if (k + 1) * BATCH as int <= n { (k + 1) * BATCH as int } else { n as int }),
{
    let mut out: Vec<(usize, usize)> = Vec::new();
    let mut start: usize = 0;
    while start < n
        invariant
            start <= n,
            start == n || start == out@.len() * BATCH,
            start <= out@.len() * BATCH,
            out@.len() * BATCH < start + BATCH,
            forall|k: int| 0 <= k < out@.len() ==> (#[trigger] out@[k]).0 == k * BATCH as int
                && out@[k].1 == (if (k + 1) * BATCH as int <= n { (k + 1) * BATCH as int } else { n as int }),
        decreases n - start,
    {
        let end = if n - start > BATCH { start + BATCH } else { n };
        out.push((start, end));
        start = end;
    }
    assert(out@.len() == (n + BATCH - 1) / BATCH as int) by (nonlinear_arith)
        requires
            start == n,
            (out@.len() as int) * 200 >= n,
            (out@.len() as int) * 200 < n + 200,
            BATCH == 200,
    {}
    out
}

/// Each history row of the watched addresses with its address: the
/// `j`-th list of `histories` belongs to the `j`-th address.
pub open spec fn rows_with_address(addrs: Seq<Seq<char>>, histories: Seq<Seq<HistoryEntry>>) -> Seq<(Seq<char>, HistoryEntry)>
    decreases histories.len(),
{
    if histories.len() == 0 {
        Seq::empty()
    } else {
        let n = histories.len() - 1;
        rows_with_address(addrs, histories.drop_last()) + histories[n].map_values(|e: HistoryEntry| (addrs[n], e))
    }
}

/// The highest height at which the transaction shown as `shown` appears.
pub open spec fn best_shown(rows: Seq<(Seq<char>, HistoryEntry)>, shown: Seq<char>) -> Option<u64>
    decreases rows.len(),
{
    if rows.len() == 0 {
        None
    } else {
        let prev = best_shown(rows.drop_last(), shown);
        let e = rows.last().1;
        if hash_display(e.txid@) == shown {
            let h = clamp_height(e.height);
            match prev {
                Some(p) => Some(if p >= h { p } else { h }),
                None => Some(h),
            }
        } else {
            prev
        }
    }
}

/// The addresses of the rows of the transaction shown as `shown`, in row
/// order.
pub open spec fn touching(rows: Seq<(Seq<char>, HistoryEntry)>, shown: Seq<char>) -> Seq<Seq<char>>
    decreases rows.len(),
{
    if rows.len() == 0 {
        Seq::empty()
    } else {
        let prev = touching(rows.drop_last(), shown);
        if hash_display(rows.last().1.txid@) == shown {
            prev.push(rows.last().0)
        } else {
            prev
        }
    }
}

/// txid -> the watched addresses each transaction touches.
pub struct Touched {
    map: KeyedMap<Vec<String>>,
}

impl View for Touched {
    type V = Map<Seq<char>, Seq<Seq<char>>>;

    closed spec fn view(&self) -> Map<Seq<char>, Seq<Seq<char>>> {
        self.map@.map_values(|v: Vec<String>| texts(v@))
    }
}

impl Touched {
    #[verifier::type_invariant]
    spec fn inv(self) -> bool {
        self.map.wf()
    }

    pub fn new() -> (r: Touched)
        ensures
            r@ == Map::<Seq<char>, Seq<Seq<char>>>::empty(),
    {
        let r = Touched { map: KeyedMap::new() };
        assert(r@ =~= Map::<Seq<char>, Seq<Seq<char>>>::empty());
        r
    }

    /// Records that `txid` touches `addr`.
    pub fn add(&mut self, txid: &str, addr: &str)
        ensures
            final(self)@ == old(self)@.insert(
                txid@,
                (if old(self)@.contains_key(txid@) { old(self)@[txid@] } else { Seq::empty() }).push(addr@),
            ),
    {
        proof {
            use_type_invariant(&*self);
        }
        let ghost om = self.map@;
        let mut m = KeyedMap::new();
        std::mem::swap(&mut m, &mut self.map);
        let mut list = match m.remove(txid) {
            Some(l) => l,
            None => Vec::new(),
        };
        let ghost before = list@;
        proof {
            if om.contains_key(txid@) {
                assert(texts(before) == old(self)@[txid@]);
            } else {
                assert(texts(before) =~= Seq::<Seq<char>>::empty());
            }
        }
        list.push(owned(addr));
        assert(texts(list@) =~= texts(before).push(addr@));
        let ghost nl = list;
        m.insert(txid, list);
        assert(m@ =~= om.insert(txid@, nl));
        self.map = m;
        assert(self@ =~= old(self)@.insert(
            txid@,
            (if old(self)@.contains_key(txid@) { old(self)@[txid@] } else { Seq::empty() }).push(addr@),
        ));
    }

    /// The addresses `txid` touches (none if unknown).
    pub fn addresses(&self, txid: &str) -> (r: Vec<String>)
        ensures
            texts(r@) == (if self@.contains_key(txid@) { self@[txid@] } else { Seq::empty() }),
    {
        proof {
            use_type_invariant(self);
        }
        match self.map.get(txid) {
            Some(l) => clone_strings(l.as_slice()),
            None => {
                let v: Vec<String> = Vec::new();
                assert(texts(v@) =~= Seq::<Seq<char>>::empty());
                v
            },
        }
    }
}

/// `m` holds, for each transaction of `rows`, its highest height, and
/// nothing else.
pub open spec fn heights_of(m: Map<Seq<char>, u64>, rows: Seq<(Seq<char>, HistoryEntry)>) -> bool {
    &&& forall|t: Seq<char>| #[trigger] m.contains_key(t) <==> best_shown(rows, t) is Some
    &&& forall|t: Seq<char>| #[trigger] m.contains_key(t) ==> best_shown(rows, t) == Some(m[t])
}

/// `m` holds, for each transaction of `rows`, the addresses of its rows,
/// and nothing else.
pub open spec fn touched_by(m: Map<Seq<char>, Seq<Seq<char>>>, rows: Seq<(Seq<char>, HistoryEntry)>) -> bool {
    &&& forall|t: Seq<char>| #[trigger] m.contains_key(t) ==> m[t] == touching(rows, t)
    &&& forall|t: Seq<char>| !(#[trigger] m.contains_key(t)) ==> touching(rows, t) == Seq::<Seq<char>>::empty()
}

proof fn lemma_observe_step(
    prev: Seq<(Seq<char>, HistoryEntry)>,
    row: (Seq<char>, HistoryEntry),
    cur: Map<Seq<char>, u64>,
    tch: Map<Seq<char>, Seq<Seq<char>>>,
    best: u64,
)
    requires
        heights_of(cur, prev),
        touched_by(tch, prev),
        best == (if cur.contains_key(hash_display(row.1.txid@)) {
            let p = cur[hash_display(row.1.txid@)];
            if p >= clamp_height(row.1.height) { p } else { clamp_height(row.1.height) }
        } else {
            clamp_height(row.1.height)
        }),
    ensures
        heights_of(cur.insert(hash_display(row.1.txid@), best), prev.push(row)),
        touched_by(
            tch.insert(
                hash_display(row.1.txid@),
                (if tch.contains_key(hash_display(row.1.txid@)) { tch[hash_display(row.1.txid@)] } else { Seq::empty() }).push(row.0),
            ),
            prev.push(row),
        ),
{
    let rows = prev.push(row);
    let shown = hash_display(row.1.txid@);
    assert(rows.drop_last() =~= prev);
    assert(rows.last() == row);
    let cur2 = cur.insert(shown, best);
    assert forall|t: Seq<char>| #[trigger] cur2.contains_key(t) <==> best_shown(rows, t) is Some by {
        if t != shown {
            assert(best_shown(rows, t) == best_shown(prev, t));
        }
    }
    assert forall|t: Seq<char>| #[trigger] cur2.contains_key(t) implies best_shown(rows, t) == Some(cur2[t]) by {
        if t != shown {
            assert(best_shown(rows, t) == best_shown(prev, t));
        } else {
            assert(cur.contains_key(shown) == (best_shown(prev, shown) is Some));
            if cur.contains_key(shown) {
                assert(best_shown(prev, shown) == Some(cur[shown]));
            }
        }
    }
    let tch2 = tch.insert(shown, (if tch.contains_key(shown) { tch[shown] } else { Seq::empty() }).push(row.0));
    assert forall|t: Seq<char>| #[trigger] tch2.contains_key(t) implies tch2[t] == touching(rows, t) by {
        if t != shown {
            assert(touching(rows, t) == touching(prev, t));
        }
    }
    assert forall|t: Seq<char>| !(#[trigger] tch2.contains_key(t)) implies touching(rows, t) == Seq::<Seq<char>>::empty() by {
        assert(touching(rows, t) == touching(prev, t));
    }
}

/// A wallet's observation: each transaction of its watched addresses at its
/// highest height, and the addresses each touches.
pub fn observe(addr_of: &Vec<String>, histories: &Vec<Vec<HistoryEntry>>) -> (r: (TxHeights, Touched))
    requires
        histories@.len() <= addr_of@.len(),
    ensures
        heights_of(r.0@, rows_with_address(texts(addr_of@), histories@.map_values(|v: Vec<HistoryEntry>| v@))),
        touched_by(r.1@, rows_with_address(texts(addr_of@), histories@.map_values(|v: Vec<HistoryEntry>| v@))),
{
    let ghost names = texts(addr_of@);
    let ghost hs = histories@.map_values(|v: Vec<HistoryEntry>| v@);
    let mut current = TxHeights::new();
    let mut touched = Touched::new();
    let mut j: usize = 0;
    assert(hs.take(0) =~= Seq::<Seq<HistoryEntry>>::empty());
    while j < histories.len()
        invariant
            j <= histories@.len(),
            histories@.len() <= addr_of@.len(),
            names == texts(addr_of@),
            hs == histories@.map_values(|v: Vec<HistoryEntry>| v@),
            heights_of(current@, rows_with_address(names, hs.take(j as int))),
            touched_by(touched@, rows_with_address(names, hs.take(j as int))),
        decreases histories@.len() - j,
    {
        let ghost base = rows_with_address(names, hs.take(j as int));
        let ghost next = rows_with_address(names, hs.take(j + 1));
        assert(hs.take(j + 1).drop_last() =~= hs.take(j as int));
        assert(next == base + hs[j as int].map_values(|e: HistoryEntry| (names[j as int], e)));
        let addr = addr_of[j].as_str();
        let list = &histories[j];
        let mut k: usize = 0;
        assert(base + list@.take(0).map_values(|e: HistoryEntry| (addr@, e)) =~= base);
        while k < list.len()
            invariant
                k <= list@.len(),
                j < histories@.len(),
                j < addr_of@.len(),
                list@ == hs[j as int],
                addr@ == names[j as int],
                heights_of(current@, base + list@.take(k as int).map_values(|e: HistoryEntry| (addr@, e))),
                touched_by(touched@, base + list@.take(k as int).map_values(|e: HistoryEntry| (addr@, e))),
            decreases list@.len() - k,
        {
            let e = list[k];
            let ghost prev_rows = base + list@.take(k as int).map_values(|e: HistoryEntry| (addr@, e));
            let ghost rows = base + list@.take(k + 1).map_values(|e: HistoryEntry| (addr@, e));
            assert(rows =~= prev_rows.push((addr@, e)));
            let shown = txid_display(&e.txid);
            let h: u64 = if e.height < 0 { 0 } else { e.height as u64 };
            let best = match current.get(shown.as_str()) {
                Some(p) => if p >= h { p } else { h },
                None => h,
            };
            proof {
                lemma_observe_step(prev_rows, (addr@, e), current@, touched@, best);
            }
            current.insert(shown.as_str(), best);
            touched.add(shown.as_str(), addr);
            k = k + 1;
        }
        assert(list@.take(list@.len() as int) =~= list@);
        j = j + 1;
    }
    assert(hs.take(hs.len() as int) =~= hs);
    (current, touched)
}

/// The `notify/new_tx` envelope for one transaction.
pub open spec fn new_tx_envelope(j: JsonValue, id: Seq<char>, ts: u64, txid: Seq<char>, addresses: Seq<Seq<char>>, height: u64) -> bool {
    &&& member_names(j) == seq!["v"@, "id"@, "ts"@, "type"@, "payload"@]
    &&& json_u64(member_value(j, 0)) == Some(1u64)
    &&& json_str(member_value(j, 1)) == Some(id)
    &&& json_u64(member_value(j, 2)) == Some(ts)
    &&& json_str(member_value(j, 3)) == Some("notify"@)
    &&& ({
        let p = member_value(j, 4);
        &&& member_names(p) == seq!["kind"@, "txid"@, "addresses"@, "height"@]
        &&& json_str(member_value(p, 0)) == Some("new_tx"@)
        &&& json_str(member_value(p, 1)) == Some(txid)
        &&& json_array(member_value(p, 2)) matches Some(items) && items.len() == addresses.len()
            && forall|i: int| 0 <= i < items.len() ==> json_str(#[trigger] items[i]) == Some(addresses[i])
        &&& json_u64(member_value(p, 3)) == Some(height)
    })
}

/// Builds the `notify/new_tx` envelope for one transaction.
pub fn new_tx_notification(id: &str, ts: u64, txid: &str, addresses: &Vec<String>, height: u64) -> (r: JsonValue)
    ensures
        new_tx_envelope(r, id@, ts, txid@, texts(addresses@), height),
{
    let mut items: Vec<JsonValue> = Vec::new();
    let mut i: usize = 0;
    while i < addresses.len()
        invariant
            i <= addresses@.len(),
            items@.len() == i,
            forall|k: int| 0 <= k < i ==> json_str(#[trigger] items@[k]) == Some(addresses@[k]@),
        decreases addresses@.len() - i,
    {
        items.push(JsonValue::string(addresses[i].as_str()));
        i = i + 1;
    }
    let mut payload: Vec<(String, JsonValue)> = Vec::new();
    put(&mut payload, "kind", JsonValue::string("new_tx"));
    put(&mut payload, "txid", JsonValue::string(txid));
    put(&mut payload, "addresses", JsonValue::Array(items));
    put(&mut payload, "height", JsonValue::uint(height));
    let payload = JsonValue::Object(payload);
    assert(member_names(payload) =~= seq!["kind"@, "txid"@, "addresses"@, "height"@]);
    let mut fields: Vec<(String, JsonValue)> = Vec::new();
    put(&mut fields, "v", JsonValue::uint(1));
    put(&mut fields, "id", JsonValue::string(id));
    put(&mut fields, "ts", JsonValue::uint(ts));
    put(&mut fields, "type", JsonValue::string("notify"));
    put(&mut fields, "payload", payload);
    let r = JsonValue::Object(fields);
    assert(member_names(r) =~= seq!["v"@, "id"@, "ts"@, "type"@, "payload"@]);
    r
}

/// `w` is the owner of one of the listed watch sets.
pub open spec fn listed(watched: Seq<(String, Vec<String>)>, w: Seq<char>) -> bool {
    exists|i: int| 0 <= i < watched.len() && (#[trigger] watched[i]).0@ == w
}

/// `w` is among the first `n` keys.
pub open spec fn among_first(keys: Seq<String>, n: int, w: Seq<char>) -> bool {
    exists|j: int| 0 <= j < n && (#[trigger] keys[j])@ == w
}

/// Whether `w` owns one of the listed watch sets.
fn is_listed(watched: &Vec<(String, Vec<String>)>, w: &str) -> (r: bool)
    ensures
        r == listed(watched@, w@),
{
    let mut i: usize = 0;
    while i < watched.len()
        invariant
            i <= watched@.len(),
            forall|j: int| 0 <= j < i ==> (#[trigger] watched@[j]).0@ != w@,
        decreases watched@.len() - i,
    {
        if str_eq(watched[i].0.as_str(), w) {
            return true;
        }
        i = i + 1;
    }
    false
}

/// The last known txid -> height map of each wallet.
pub struct WatcherState {
    wallets: KeyedMap<TxHeights>,
}

impl View for WatcherState {
    type V = Map<Seq<char>, Map<Seq<char>, u64>>;

    closed spec fn view(&self) -> Map<Seq<char>, Map<Seq<char>, u64>> {
        self.wallets@.map_values(|t: TxHeights| t@)
    }
}

impl WatcherState {
    #[verifier::type_invariant]
    spec fn inv(self) -> bool {
        self.wallets.wf()
    }

    pub fn new() -> (r: WatcherState)
        ensures
            r@ == Map::<Seq<char>, Map<Seq<char>, u64>>::empty(),
    {
        let r = WatcherState { wallets: KeyedMap::new() };
        assert(r@ =~= Map::<Seq<char>, Map<Seq<char>, u64>>::empty());
        r
    }

    /// The state held in persisted entries (a later duplicate wins, for a
    /// wallet and for a txid).
    pub fn from_entries(entries: &Vec<(String, Vec<(String, u64)>)>) -> (r: WatcherState)
        ensures
            forall|w: Seq<char>| #[trigger] r@.contains_key(w) <==> entries_map(entries@).contains_key(w),
            forall|w: Seq<char>| #[trigger] r@.contains_key(w) ==> r@[w] == entries_map(entries_map(entries@)[w]@),
    {
        let mut wallets: KeyedMap<TxHeights> = KeyedMap::new();
        let mut i: usize = 0;
        while i < entries.len()
            invariant
                i <= entries@.len(),
                wallets.wf(),
                forall|w: Seq<char>| #[trigger] wallets@.contains_key(w) <==> entries_map(entries@.take(i as int)).contains_key(w),
                forall|w: Seq<char>| #[trigger] wallets@.contains_key(w) ==> wallets@[w]@ == entries_map(entries_map(entries@.take(i as int))[w]@),
            decreases entries@.len() - i,
        {
            assert(entries@.take(i + 1).drop_last() =~= entries@.take(i as int));
            let t = TxHeights::from_entries(&entries[i].1);
            wallets.insert(entries[i].0.as_str(), t);
            i = i + 1;
        }
        assert(entries@.take(entries@.len() as int) =~= entries@);
        WatcherState { wallets }
    }

    /// The state as persisted entries: wallets in ascending order, each
    /// with its txids in ascending order.
    pub fn entries(&self) -> (r: Vec<(String, Vec<(String, u64)>)>)
        ensures
            ascending(r@),
            forall|w: Seq<char>| #[trigger] self@.contains_key(w) <==> entries_map(r@).contains_key(w),
            forall|i: int| 0 <= i < r@.len() ==> ascending((#[trigger] r@[i]).1@)
                && entries_map(r@[i].1@) == self@[r@[i].0@],
    {
        proof {
            use_type_invariant(self);
            self.wallets.lemma_entries_view();
        }
        let n = self.wallets.len();
        let mut out: Vec<(String, Vec<(String, u64)>)> = Vec::new();
        let mut i: usize = 0;
        while i < n
            invariant
                n == self.wallets.entries().len(),
                ascending(self.wallets.entries()),
                self.wallets@ == entries_map(self.wallets.entries()),
                i <= n,
                out@.len() == i,
                forall|j: int| 0 <= j < i ==> (#[trigger] out@[j]).0@ == self.wallets.entries()[j].0@
                    && ascending(out@[j].1@) && entries_map(out@[j].1@) == self.wallets.entries()[j].1@,
            decreases n - i,
        {
            let (k, v) = self.wallets.entry_at(i);
            out.push((k.clone(), v.entries()));
            i = i + 1;
        }
        proof {
            let e = self.wallets.entries();
            assert(ascending(out@)) by {
                assert forall|a: int, b: int| 0 <= a < b < out@.len() implies seq_lt(#[trigger] out@[a].0@, #[trigger] out@[b].0@) by {
                    assert(seq_lt(e[a].0@, e[b].0@));
                }
            }
            assert forall|w: Seq<char>| #[trigger] self@.contains_key(w) <==> entries_map(out@).contains_key(w) by {
                lemma_entries_map_contains(out@, w);
                lemma_entries_map_contains(e, w);
                if exists|j: int| 0 <= j < out@.len() && (#[trigger] out@[j]).0@ == w {
                    let j = choose|j: int| 0 <= j < out@.len() && (#[trigger] out@[j]).0@ == w;
                    assert(e[j].0@ == w);
                }
                if exists|j: int| 0 <= j < e.len() && (#[trigger] e[j]).0@ == w {
                    let j = choose|j: int| 0 <= j < e.len() && (#[trigger] e[j]).0@ == w;
                    assert(out@[j].0@ == w);
                }
            }
            assert forall|j: int| 0 <= j < out@.len() implies ascending((#[trigger] out@[j]).1@)
                && entries_map(out@[j].1@) == self@[out@[j].0@] by {
                lemma_entries_map_contains(e, e[j].0@);
            }
        }
        out
    }

    /// Records a wallet's new observation and returns the notifications it
    /// implies against the wallet's previous one.
    pub fn record(&mut self, wallet: &str, current: TxHeights) -> (r: Vec<(String, u64)>)
        ensures
            final(self)@ == old(self)@.insert(wallet@, current@),
            is_diff(
                if old(self)@.contains_key(wallet@) { Some(old(self)@[wallet@]) } else { None },
                current@,
                r@,
            ),
    {
        proof {
            use_type_invariant(&*self);
        }
        let d = diff(self.wallets.get(wallet), &current);
        let ghost om = self.wallets@;
        let ghost cv = current@;
        let mut m = KeyedMap::new();
        std::mem::swap(&mut m, &mut self.wallets);
        m.insert(wallet, current);
        self.wallets = m;
        assert(self@ =~= old(self)@.insert(wallet@, cv));
        d
    }

    /// Forgets the wallets that own none of the listed watch sets; returns
    /// whether any was forgotten.
    pub fn forget_unwatched(&mut self, watched: &Vec<(String, Vec<String>)>) -> (r: bool)
        ensures
            forall|w: Seq<char>| #[trigger] final(self)@.contains_key(w) <==> old(self)@.contains_key(w) && listed(watched@, w),
            forall|w: Seq<char>| #[trigger] final(self)@.contains_key(w) ==> final(self)@[w] == old(self)@[w],
            r <==> exists|w: Seq<char>| #[trigger] old(self)@.contains_key(w) && !listed(watched@, w),
    {
        proof {
            use_type_invariant(&*self);
            self.wallets.lemma_entries_view();
        }
        let ghost om = self.wallets@;
        let ghost oe = self.wallets.entries();
        let n = self.wallets.len();
        let mut keys: Vec<String> = Vec::new();
        let mut i: usize = 0;
        while i < n
            invariant
                n == oe.len(),
                oe == self.wallets.entries(),
                i <= n,
                keys@.len() == i,
                forall|j: int| 0 <= j < i ==> (#[trigger] keys@[j])@ == oe[j].0@,
            decreases n - i,
        {
            let (k, _) = self.wallets.entry_at(i);
            keys.push(k.clone());
            i = i + 1;
        }
        proof {
            assert forall|w: Seq<char>| #[trigger] om.contains_key(w) implies exists|j: int| 0 <= j < keys@.len() && (#[trigger] keys@[j])@ == w by {
                lemma_entries_map_contains(oe, w);
                let j = choose|j: int| 0 <= j < oe.len() && (#[trigger] oe[j]).0@ == w;
                assert(keys@[j]@ == w);
            }
            assert forall|j: int| 0 <= j < keys@.len() implies om.contains_key((#[trigger] keys@[j])@) by {
                lemma_entries_map_contains(oe, oe[j].0@);
            }
        }
        let mut m = KeyedMap::new();
        std::mem::swap(&mut m, &mut self.wallets);
        let mut changed = false;
        let mut i: usize = 0;
        while i < keys.len()
            invariant
                i <= keys@.len(),
                m.wf(),
                forall|j: int| 0 <= j < keys@.len() ==> om.contains_key((#[trigger] keys@[j])@),
                forall|w: Seq<char>| #[trigger] m@.contains_key(w) <==> om.contains_key(w)
                    && (listed(watched@, w) || !among_first(keys@, i as int, w)),
                forall|w: Seq<char>| #[trigger] m@.contains_key(w) ==> m@[w] == om[w],
                changed <==> exists|j: int| 0 <= j < i && !listed(watched@, (#[trigger] keys@[j])@),
            decreases keys@.len() - i,
        {
            if !is_listed(watched, keys[i].as_str()) {
                m.remove(keys[i].as_str());
                changed = true;
            }
            proof {
                assert forall|w: Seq<char>| #[trigger] among_first(keys@, i + 1, w)
                    <==> (among_first(keys@, i as int, w) || keys@[i as int]@ == w) by {
                    if among_first(keys@, i + 1, w) {
                        let j = choose|j: int| 0 <= j < i + 1 && (#[trigger] keys@[j])@ == w;
                        if j < i {
                            assert(among_first(keys@, i as int, w));
                        }
                    }
                    if keys@[i as int]@ == w {
                        assert(0 <= i < i + 1 && keys@[i as int]@ == w);
                    }
                    if among_first(keys@, i as int, w) {
                        let j = choose|j: int| 0 <= j < i && (#[trigger] keys@[j])@ == w;
                        assert(0 <= j < i + 1 && keys@[j]@ == w);
                    }
                }
                if changed {
                    if exists|j: int| 0 <= j < i && !listed(watched@, (#[trigger] keys@[j])@) {
                        let j = choose|j: int| 0 <= j < i && !listed(watched@, (#[trigger] keys@[j])@);
                        assert(0 <= j < i + 1);
                    } else {
                        assert(!listed(watched@, keys@[i as int]@));
                    }
                }
                if exists|j: int| 0 <= j < i + 1 && !listed(watched@, (#[trigger] keys@[j])@) {
                    let j = choose|j: int| 0 <= j < i + 1 && !listed(watched@, (#[trigger] keys@[j])@);
                    if j < i {
                        assert(exists|j: int| 0 <= j < i && !listed(watched@, (#[trigger] keys@[j])@));
                    }
                }
            }
            i = i + 1;
        }
        self.wallets = m;
        proof {
            assert forall|w: Seq<char>| #[trigger] self@.contains_key(w) <==> om.contains_key(w) && listed(watched@, w) by {
                if om.contains_key(w) {
                    let j = choose|j: int| 0 <= j < keys@.len() && (#[trigger] keys@[j])@ == w;
                    assert(among_first(keys@, keys@.len() as int, w));
                }
            }
            if changed {
                let j = choose|j: int| 0 <= j < keys@.len() && !listed(watched@, (#[trigger] keys@[j])@);
                assert(old(self)@.contains_key(keys@[j]@));
            }
            if exists|w: Seq<char>| #[trigger] old(self)@.contains_key(w) && !listed(watched@, w) {
                let w = choose|w: Seq<char>| #[trigger] old(self)@.contains_key(w) && !listed(watched@, w);
                let j = choose|j: int| 0 <= j < keys@.len() && (#[trigger] keys@[j])@ == w;
                assert(!listed(watched@, keys@[j]@));
            }
        }
        changed
    }
}

/// Seconds between watcher passes when none is configured.
pub const DEFAULT_INTERVAL_SECS: u64 = 60;

/// The watcher's interval from the `NOMAD_WATCH_INTERVAL_SECS` setting:
/// its number of seconds when it reads as one, else the default.
pub fn watch_interval_secs(setting: Option<&str>) -> (r: u64)
    ensures
        r == (match setting {
            Some(v) => match parsed_u64(v@) {
                Some(n) => n,
                None => DEFAULT_INTERVAL_SECS,
            },
            None => DEFAULT_INTERVAL_SECS,
        }),
{
    match setting {
        Some(v) => match parse_u64(v) {
            Some(n) => n,
            None => DEFAULT_INTERVAL_SECS,
        },
        None => DEFAULT_INTERVAL_SECS,
    }
}

/// The positions of the watch sets a pass looks at: those of paired
/// wallets that watch at least one address, in order.
pub open spec fn due(snapshot: Seq<(String, Vec<String>)>, paired: Set<Seq<char>>) -> Seq<int>
    decreases snapshot.len(),
{
    if snapshot.len() == 0 {
        Seq::empty()
    } else {
        let rest = due(snapshot.drop_last(), paired);
        let last = snapshot.last();
        if paired.contains(last.0@) && last.1@.len() > 0 {
            rest.push(snapshot.len() - 1)
        } else {
            rest
        }
    }
}

/// Picks the watch sets a pass looks at: unpaired wallets and empty sets
/// are skipped.
pub fn wallets_due(snapshot: &Vec<(String, Vec<String>)>, allowlist: &Allowlist) -> (r: Vec<usize>)
    ensures
        r@.map_values(|i: usize| i as int) == due(snapshot@, allowlist@),
{
    let mut out: Vec<usize> = Vec::new();
    let mut i: usize = 0;
    while i < snapshot.len()
        invariant
            i <= snapshot@.len(),
            out@.map_values(|k: usize| k as int) == due(snapshot@.take(i as int), allowlist@),
        decreases snapshot@.len() - i,
    {
        let ghost before = out@;
        assert(snapshot@.take(i + 1).drop_last() =~= snapshot@.take(i as int));
        assert(snapshot@.take(i + 1).last() == snapshot@[i as int]);
        if allowlist.is_paired(snapshot[i].0.as_str()) && snapshot[i].1.len() > 0 {
            out.push(i);
            assert(out@.map_values(|k: usize| k as int) =~= before.map_values(|k: usize| k as int).push(i as int));
        }
        i = i + 1;
    }
    assert(snapshot@.take(snapshot@.len() as int) =~= snapshot@);
    out
}

/// One watcher pass over a wallet, once the histories of its watchable
/// addresses were fetched (the `j`-th list belongs to the `j`-th address):
/// records the wallet's new observation (each transaction at its highest
/// height) and returns the notifications it implies against the previous
/// one, each txid once with its height, together with the addresses each
/// notified transaction touches.
pub fn tick_wallet(
    state: &mut WatcherState,
    wallet: &str,
    addr_of: &Vec<String>,
    histories: &Vec<Vec<HistoryEntry>>,
) -> (r: (Vec<(String, u64)>, Vec<Vec<String>>))
    requires
        histories@.len() <= addr_of@.len(),
    ensures
        ({
            let rows = rows_with_address(texts(addr_of@), histories@.map_values(|v: Vec<HistoryEntry>| v@));
            let prev = if old(state)@.contains_key(wallet@) { Some(old(state)@[wallet@]) } else { None };
            &&& final(state)@.contains_key(wallet@)
            &&& heights_of(final(state)@[wallet@], rows)
            &&& final(state)@ == old(state)@.insert(wallet@, final(state)@[wallet@])
            &&& is_diff(prev, final(state)@[wallet@], r.0@)
            &&& r.1@.len() == r.0@.len()
            &&& forall|i: int| 0 <= i < r.0@.len() ==> texts((#[trigger] r.1@[i])@) == touching(rows, r.0@[i].0@)
        }),
{
    let (current, touched) = observe(addr_of, histories);
    let ghost rows = rows_with_address(texts(addr_of@), histories@.map_values(|v: Vec<HistoryEntry>| v@));
    let ghost c = current@;
    let deltas = state.record(wallet, current);
    assert(state@[wallet@] == c);
    let mut addrs: Vec<Vec<String>> = Vec::new();
    let mut i: usize = 0;
    while i < deltas.len()
        invariant
            i <= deltas@.len(),
            addrs@.len() == i,
            touched_by(touched@, rows),
            forall|k: int| 0 <= k < i ==> texts((#[trigger] addrs@[k])@) == touching(rows, deltas@[k].0@),
        decreases deltas@.len() - i,
    {
        let a = touched.addresses(deltas[i].0.as_str());
        proof {
            let t = deltas@[i as int].0@;
            if touched@.contains_key(t) {
                assert(touched@[t] == touching(rows, t));
            } else {
                assert(touching(rows, t) == Seq::<Seq<char>>::empty());
            }
        }
        addrs.push(a);
        i = i + 1;
    }
    (deltas, addrs)
}

} // verus!
