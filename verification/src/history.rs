//! Transaction history of a set of addresses: the
//! backend's per-address histories merged, deduplicated by txid (a
//! transaction can touch several of the wallet's addresses), newest first,
//! and cut to the requested limit.

use vstd::prelude::*;

verus! {

/// One history row from the backend: a txid (internal byte order) and the
/// height it is at (0 or negative: unconfirmed).
#[derive(Debug, Clone, Copy)]
pub struct HistoryEntry {
    pub txid: [u8; 32],
    pub height: i64,
}

/// A height with unconfirmed markers read as 0.
pub open spec fn clamp_height(h: i64) -> u64 {
    if h < 0 {
        0
    } else {
        h as u64
    }
}

/// All rows of all addresses, address by address.
pub open spec fn flatten(h: Seq<Seq<HistoryEntry>>) -> Seq<HistoryEntry>
    decreases h.len(),
{
    if h.len() == 0 {
        Seq::empty()
    } else {
        flatten(h.drop_last()) + h.last()
    }
}

/// The highest height at which `txid` appears among the rows, if it does.
pub open spec fn best_height(rows: Seq<HistoryEntry>, txid: Seq<u8>) -> Option<u64>
    decreases rows.len(),
{
    if rows.len() == 0 {
        None
    } else {
        let prev = best_height(rows.drop_last(), txid);
        let e = rows.last();
        if e.txid@ == txid {
            let h = clamp_height(e.height);
            match prev {
                Some(p) => Some(if p >= h { p } else { h }),
                None => Some(h),
            }
        } else {
            prev
        }
    }
}

/// Strict lexicographic order on byte strings (the order of `Txid`).
pub open spec fn bytes_lt(a: Seq<u8>, b: Seq<u8>) -> bool
    decreases a.len(),
{
    if a.len() == 0 {
        b.len() > 0
    } else if b.len() == 0 {
        false
    } else if a[0] != b[0] {
        a[0] < b[0]
    } else {
        bytes_lt(a.drop_first(), b.drop_first())
    }
}

pub proof fn lemma_bytes_lt_irreflexive(a: Seq<u8>)
    ensures
        !bytes_lt(a, a),
    decreases a.len(),
{
    if a.len() > 0 {
        lemma_bytes_lt_irreflexive(a.drop_first());
    }
}

pub proof fn lemma_bytes_lt_transitive(a: Seq<u8>, b: Seq<u8>, c: Seq<u8>)
    requires
        bytes_lt(a, b),
        bytes_lt(b, c),
    ensures
        bytes_lt(a, c),
    decreases a.len(),
{
    if a.len() > 0 && b.len() > 0 && c.len() > 0 {
        if a[0] == b[0] && b[0] == c[0] {
            lemma_bytes_lt_transitive(a.drop_first(), b.drop_first(), c.drop_first());
        }
    }
}

pub proof fn lemma_bytes_lt_total(a: Seq<u8>, b: Seq<u8>)
    ensures
        a == b || bytes_lt(a, b) || bytes_lt(b, a),
    decreases a.len(),
{
    if a.len() > 0 && b.len() > 0 {
        if a[0] == b[0] {
            lemma_bytes_lt_total(a.drop_first(), b.drop_first());
            if a.drop_first() == b.drop_first() {
                assert(a =~= seq![a[0]] + a.drop_first());
                assert(b =~= seq![b[0]] + b.drop_first());
            }
        }
    } else if a.len() == 0 && b.len() == 0 {
        assert(a =~= b);
    }
}

/// `a` comes before `b`: higher first, then by txid.
pub open spec fn newer_first(a: (Seq<u8>, u64), b: (Seq<u8>, u64)) -> bool {
    a.1 > b.1 || (a.1 == b.1 && bytes_lt(a.0, b.0))
}

pub proof fn lemma_newer_first_transitive(a: (Seq<u8>, u64), b: (Seq<u8>, u64), c: (Seq<u8>, u64))
    requires
        newer_first(a, b),
        newer_first(b, c),
    ensures
        newer_first(a, c),
{
    if a.1 == b.1 && b.1 == c.1 {
        lemma_bytes_lt_transitive(a.0, b.0, c.0);
    }
}

pub proof fn lemma_newer_first_total(a: (Seq<u8>, u64), b: (Seq<u8>, u64))
    requires
        a.0 != b.0,
    ensures
        newer_first(a, b) || newer_first(b, a),
{
    lemma_bytes_lt_total(a.0, b.0);
}

/// A merged row as txid view and height.
pub open spec fn row_view(r: ([u8; 32], u64)) -> (Seq<u8>, u64) {
    (r.0@, r.1)
}

/// `out` is the merged history of `rows`: each txid once at its highest
/// height, newest first (ties by txid), cut to the first `limit`.
pub open spec fn merged_history(out: Seq<([u8; 32], u64)>, rows: Seq<HistoryEntry>, limit: usize) -> bool {
    &&& out.len() <= limit
    &&& forall|i: int, j: int| 0 <= i < j < out.len() ==> newer_first(row_view(#[trigger] out[i]), row_view(#[trigger] out[j]))
    &&& forall|i: int| 0 <= i < out.len() ==> best_height(rows, (#[trigger] out[i]).0@) == Some(out[i].1)
    &&& forall|t: Seq<u8>| #[trigger] best_height(rows, t) is Some && !(exists|i: int| 0 <= i < out.len() && (#[trigger] out[i]).0@ == t) ==> {
        &&& out.len() == limit
        &&& forall|i: int| 0 <= i < out.len() ==> newer_first(row_view(#[trigger] out[i]), (t, best_height(rows, t).unwrap()))
    }
}

/// Two txids are the same.
pub fn same_txid(a: &[u8; 32], b: &[u8; 32]) -> (r: bool)
    ensures
        r == (a@ == b@),
{
    let mut i: usize = 0;
    while i < 32
        invariant
            i <= 32,
            a@.len() == 32,
            b@.len() == 32,
            a@.take(i as int) == b@.take(i as int),
        decreases 32 - i,
    {
        if a[i] != b[i] {
            return false;
        }
        assert(a@.take(i + 1) =~= a@.take(i as int).push(a@[i as int]));
        assert(b@.take(i + 1) =~= b@.take(i as int).push(b@[i as int]));
        i = i + 1;
    }
    assert(a@ =~= a@.take(32));
    assert(b@ =~= b@.take(32));
    true
}

/// `a` sorts before `b` (higher first, then by txid).
pub fn comes_before(a: &([u8; 32], u64), b: &([u8; 32], u64)) -> (r: bool)
    ensures
        r == newer_first(row_view(*a), row_view(*b)),
{
    if a.1 != b.1 {
        return a.1 > b.1;
    }
    let mut i: usize = 0;
    let ghost x = a.0@;
    let ghost y = b.0@;
    assert(x.skip(0) =~= x);
    assert(y.skip(0) =~= y);
    while i < 32
        invariant
            i <= 32,
            a.1 == b.1,
            x == a.0@,
            y == b.0@,
            x.len() == 32,
            y.len() == 32,
            bytes_lt(x, y) == bytes_lt(x.skip(i as int), y.skip(i as int)),
        decreases 32 - i,
    {
        let ghost sx = x.skip(i as int);
        let ghost sy = y.skip(i as int);
        assert(sx[0] == x[i as int] && sy[0] == y[i as int]);
        assert(sx.len() > 0 && sy.len() > 0);
        let ai = a.0[i];
        let bi = b.0[i];
        assert(ai == sx[0] && bi == sy[0]);
        if ai != bi {
            assert(bytes_lt(sx, sy) == (sx[0] < sy[0]));
            return ai < bi;
        }
        assert(sx.drop_first() =~= x.skip(i + 1));
        assert(sy.drop_first() =~= y.skip(i + 1));
        i = i + 1;
    }
    assert(x.skip(32).len() == 0);
    assert(y.skip(32).len() == 0);
    false
}

proof fn lemma_flatten_step(h: Seq<Seq<HistoryEntry>>, i: int)
    requires
        0 <= i < h.len(),
    ensures
        flatten(h.take(i + 1)) == flatten(h.take(i)) + h[i],
{
    assert(h.take(i + 1).drop_last() =~= h.take(i));
}

/// All rows, address by address.
pub fn flatten_rows(histories: &Vec<Vec<HistoryEntry>>) -> (r: Vec<HistoryEntry>)
    ensures
        r@ == flatten(histories@.map_values(|v: Vec<HistoryEntry>| v@)),
{
    let ghost h = histories@.map_values(|v: Vec<HistoryEntry>| v@);
    let mut out: Vec<HistoryEntry> = Vec::new();
    let mut i: usize = 0;
    assert(h.take(0) =~= Seq::<Seq<HistoryEntry>>::empty());
    while i < histories.len()
        invariant
            i <= histories@.len(),
            h == histories@.map_values(|v: Vec<HistoryEntry>| v@),
            out@ == flatten(h.take(i as int)),
        decreases histories@.len() - i,
    {
        let list = &histories[i];
        let ghost base = out@;
        let mut j: usize = 0;
        while j < list.len()
            invariant
                j <= list@.len(),
                out@ == base + list@.take(j as int),
            decreases list@.len() - j,
        {
            out.push(list[j]);
            j = j + 1;
            assert(out@ =~= base + list@.take(j as int));
        }
        assert(list@.take(list@.len() as int) =~= list@);
        proof {
            lemma_flatten_step(h, i as int);
        }
        i = i + 1;
    }
    assert(h.take(h.len() as int) =~= h);
    out
}

/// Txids are pairwise distinct.
pub open spec fn distinct_txids(s: Seq<([u8; 32], u64)>) -> bool {
    forall|i: int, j: int| 0 <= i < j < s.len() ==> (#[trigger] s[i]).0@ != (#[trigger] s[j]).0@
}

/// Each txid of `rows` once, at its highest height, in first-seen order.
fn dedupe(rows: &Vec<HistoryEntry>) -> (r: Vec<([u8; 32], u64)>)
    ensures
        distinct_txids(r@),
        forall|k: int| 0 <= k < r@.len() ==> best_height(rows@, (#[trigger] r@[k]).0@) == Some(r@[k].1),
        forall|t: Seq<u8>| #[trigger] best_height(rows@, t) is Some ==> exists|k: int| 0 <= k < r@.len() && (#[trigger] r@[k]).0@ == t,
{
    let mut uniq: Vec<([u8; 32], u64)> = Vec::new();
    let mut i: usize = 0;
    assert(rows@.take(0) =~= Seq::<HistoryEntry>::empty());
    while i < rows.len()
        invariant
            i <= rows@.len(),
            distinct_txids(uniq@),
            forall|k: int| 0 <= k < uniq@.len() ==> best_height(rows@.take(i as int), (#[trigger] uniq@[k]).0@) == Some(uniq@[k].1),
            forall|t: Seq<u8>| #[trigger] best_height(rows@.take(i as int), t) is Some ==> exists|k: int| 0 <= k < uniq@.len() && (#[trigger] uniq@[k]).0@ == t,
        decreases rows@.len() - i,
    {
        let e = rows[i];
        let h: u64 = if e.height < 0 { 0 } else { e.height as u64 };
        let ghost pre = rows@.take(i as int);
        let ghost next = rows@.take(i + 1);
        assert(next.drop_last() =~= pre);
        assert(next.last() == e);
        let ghost before = uniq@;
        let mut k: usize = 0;
        while k < uniq.len() && !same_txid(&uniq[k].0, &e.txid)
            invariant
                k <= uniq@.len(),
                uniq@ == before,
                forall|q: int| 0 <= q < k ==> (#[trigger] uniq@[q]).0@ != e.txid@,
            decreases uniq@.len() - k,
        {
            k = k + 1;
        }
        let found = k < uniq.len();
        if found {
            let cur = uniq[k].1;
            let best = if cur >= h { cur } else { h };
            uniq.set(k, (e.txid, best));
            assert forall|q: int| 0 <= q < uniq@.len() implies best_height(next, (#[trigger] uniq@[q]).0@) == Some(uniq@[q].1) by {
                if q != k {
                    assert(uniq@[q] == before[q]);
                    assert(before[q].0@ != before[k as int].0@);
                }
            }
            assert forall|q: int, r: int| 0 <= q < r < uniq@.len() implies (#[trigger] uniq@[q]).0@ != (#[trigger] uniq@[r]).0@ by {
                if q != k && r != k {
                    assert(uniq@[q] == before[q] && uniq@[r] == before[r]);
                } else if q == k {
                    assert(uniq@[r] == before[r]);
                    assert(before[q].0@ != before[r].0@);
                } else {
                    assert(uniq@[q] == before[q]);
                    assert(before[q].0@ != before[r].0@);
                }
            }
            assert forall|t: Seq<u8>| #[trigger] best_height(next, t) is Some implies exists|q: int| 0 <= q < uniq@.len() && (#[trigger] uniq@[q]).0@ == t by {
                if t == e.txid@ {
                    assert(uniq@[k as int].0@ == t);
                } else {
                    assert(best_height(pre, t) is Some);
                    let q = choose|q: int| 0 <= q < before.len() && (#[trigger] before[q]).0@ == t;
                    assert(uniq@[q].0@ == t);
                }
            }
        } else {
            uniq.push((e.txid, h));
            assert(best_height(pre, e.txid@) is None) by {
                if best_height(pre, e.txid@) is Some {
                    let q = choose|q: int| 0 <= q < before.len() && (#[trigger] before[q]).0@ == e.txid@;
                    assert(false);
                }
            }
            assert forall|q: int| 0 <= q < uniq@.len() implies best_height(next, (#[trigger] uniq@[q]).0@) == Some(uniq@[q].1) by {
                if q < before.len() {
                    assert(uniq@[q] == before[q]);
                }
            }
            assert forall|t: Seq<u8>| #[trigger] best_height(next, t) is Some implies exists|q: int| 0 <= q < uniq@.len() && (#[trigger] uniq@[q]).0@ == t by {
                if t == e.txid@ {
                    assert(uniq@[before.len() as int].0@ == t);
                } else {
                    assert(best_height(pre, t) is Some);
                    let q = choose|q: int| 0 <= q < before.len() && (#[trigger] before[q]).0@ == t;
                    assert(uniq@[q].0@ == t);
                }
            }
        }
        i = i + 1;
    }
    assert(rows@.take(rows@.len() as int) =~= rows@);
    uniq
}

/// Strictly in `newer_first` order.
pub open spec fn sorted_rows(s: Seq<([u8; 32], u64)>) -> bool {
    forall|i: int, j: int| 0 <= i < j < s.len() ==> newer_first(row_view(#[trigger] s[i]), row_view(#[trigger] s[j]))
}

/// `x` is one of the rows of `s`.
#[verifier::opaque]
pub open spec fn has_row(s: Seq<([u8; 32], u64)>, x: ([u8; 32], u64)) -> bool {
    exists|p: int| 0 <= p < s.len() && s[p] == x
}

proof fn lemma_placed_differ(u: Seq<([u8; 32], u64)>, placed: Seq<([u8; 32], u64)>, i: int)
    requires
        0 <= i < u.len(),
        distinct_txids(u),
        forall|p: int| 0 <= p < placed.len() ==> has_row(u.take(i), #[trigger] placed[p]),
    ensures
        forall|q: int| 0 <= q < placed.len() ==> (#[trigger] placed[q]).0@ != u[i].0@,
{
    reveal(has_row);
    assert forall|q: int| 0 <= q < placed.len() implies (#[trigger] placed[q]).0@ != u[i].0@ by {
        assert(has_row(u.take(i), placed[q]));
        let k = choose|k: int| 0 <= k < u.take(i).len() && u.take(i)[k] == placed[q];
        assert(u[k] == placed[q]);
        assert(u[k].0@ != u[i].0@);
    }
}

proof fn lemma_insert_sorted(before: Seq<([u8; 32], u64)>, s: Seq<([u8; 32], u64)>, x: ([u8; 32], u64), p: int)
    requires
        0 <= p <= before.len(),
        sorted_rows(before),
        s == before.insert(p, x),
        forall|q: int| 0 <= q < before.len() ==> (#[trigger] before[q]).0@ != x.0@,
        forall|q: int| 0 <= q < p ==> !newer_first(row_view(x), row_view(#[trigger] before[q])),
        p < before.len() ==> newer_first(row_view(x), row_view(before[p])),
    ensures
        sorted_rows(s),
{
    assert forall|a: int, b: int| 0 <= a < b < s.len() implies newer_first(row_view(#[trigger] s[a]), row_view(#[trigger] s[b])) by {
        if a < p && b == p {
            lemma_newer_first_total(row_view(x), row_view(before[a]));
        } else if a < p && b > p {
            assert(s[a] == before[a]);
            assert(s[b] == before[b - 1]);
        } else if a == p {
            assert(s[b] == before[b - 1]);
            if b - 1 > p {
                lemma_newer_first_transitive(row_view(x), row_view(before[p]), row_view(before[b - 1]));
            }
        } else if a > p {
            assert(s[a] == before[a - 1] && s[b] == before[b - 1]);
        } else {
            assert(s[a] == before[a] && s[b] == before[b]);
        }
    }
}

proof fn lemma_insert_covers(u: Seq<([u8; 32], u64)>, before: Seq<([u8; 32], u64)>, s: Seq<([u8; 32], u64)>, i: int, p: int)
    requires
        0 <= i < u.len(),
        0 <= p <= before.len(),
        s == before.insert(p, u[i]),
        forall|k: int| 0 <= k < i ==> has_row(before, #[trigger] u[k]),
        forall|q: int| 0 <= q < before.len() ==> has_row(u.take(i), #[trigger] before[q]),
    ensures
        forall|k: int| 0 <= k < i + 1 ==> has_row(s, #[trigger] u[k]),
        forall|q: int| 0 <= q < s.len() ==> has_row(u.take(i + 1), #[trigger] s[q]),
{
    reveal(has_row);
    assert forall|k: int| 0 <= k < i + 1 implies has_row(s, #[trigger] u[k]) by {
        if k == i {
            assert(s[p] == u[k]);
        } else {
            assert(has_row(before, u[k]));
            let q = choose|q: int| 0 <= q < before.len() && before[q] == u[k];
            if q < p {
                assert(s[q] == u[k]);
            } else {
                assert(s[q + 1] == u[k]);
            }
        }
    }
    assert forall|q: int| 0 <= q < s.len() implies has_row(u.take(i + 1), #[trigger] s[q]) by {
        let t = u.take(i + 1);
        if q == p {
            assert(t[i] == s[q]);
        } else {
            let b = if q < p { q } else { q - 1 };
            assert(s[q] == before[b]);
            assert(has_row(u.take(i), before[b]));
            let k = choose|k: int| 0 <= k < u.take(i).len() && u.take(i)[k] == before[b];
            assert(t[k] == s[q]);
        }
    }
}

/// The rows of `u` in `newer_first` order.
fn sort_rows(u: &Vec<([u8; 32], u64)>) -> (r: Vec<([u8; 32], u64)>)
    requires
        distinct_txids(u@),
    ensures
        sorted_rows(r@),
        forall|k: int| 0 <= k < u@.len() ==> has_row(r@, #[trigger] u@[k]),
        forall|p: int| 0 <= p < r@.len() ==> has_row(u@, #[trigger] r@[p]),
{
    let mut s: Vec<([u8; 32], u64)> = Vec::new();
    let mut i: usize = 0;
    while i < u.len()
        invariant
            i <= u@.len(),
            distinct_txids(u@),
            sorted_rows(s@),
            forall|k: int| 0 <= k < i ==> has_row(s@, #[trigger] u@[k]),
            forall|p: int| 0 <= p < s@.len() ==> has_row(u@.take(i as int), #[trigger] s@[p]),
        decreases u@.len() - i,
    {
        let x = u[i];
        let mut p: usize = 0;
        while p < s.len() && !comes_before(&x, &s[p])
            invariant
                p <= s@.len(),
                forall|q: int| 0 <= q < p ==> !newer_first(row_view(x), row_view(#[trigger] s@[q])),
            decreases s@.len() - p,
        {
            p = p + 1;
        }
        let ghost before = s@;
        proof {
            lemma_placed_differ(u@, before, i as int);
        }
        s.insert(p, x);
        proof {
            lemma_insert_sorted(before, s@, x, p as int);
            lemma_insert_covers(u@, before, s@, i as int, p as int);
        }
        i = i + 1;
    }
    proof {
        assert(u@.take(u@.len() as int) =~= u@);
        reveal(has_row);
    }
    s
}

/// Merges per-address histories: each txid once at its highest height
/// (unconfirmed as 0), newest first, ties by txid, at most `limit` rows.
pub fn merge_histories(histories: &Vec<Vec<HistoryEntry>>, limit: usize) -> (r: Vec<([u8; 32], u64)>)
    ensures
        merged_history(r@, flatten(histories@.map_values(|v: Vec<HistoryEntry>| v@)), limit),
{
    let rows = flatten_rows(histories);
    let u = dedupe(&rows);
    let mut s = sort_rows(&u);
    let ghost full = s@;
    s.truncate(limit);
    proof {
        let rs = rows@;
        reveal(has_row);
        assert forall|i: int| 0 <= i < s@.len() implies best_height(rs, (#[trigger] s@[i]).0@) == Some(s@[i].1) by {
            assert(s@[i] == full[i]);
            assert(has_row(u@, full[i]));
            let k = choose|k: int| 0 <= k < u@.len() && u@[k] == full[i];
            assert(best_height(rs, u@[k].0@) == Some(u@[k].1));
        }
        assert forall|i: int, j: int| 0 <= i < j < s@.len() implies newer_first(row_view(#[trigger] s@[i]), row_view(#[trigger] s@[j])) by {
            assert(s@[i] == full[i] && s@[j] == full[j]);
        }
        assert forall|t: Seq<u8>| #[trigger] best_height(rs, t) is Some && !(exists|i: int| 0 <= i < s@.len() && (#[trigger] s@[i]).0@ == t) implies {
            &&& s@.len() == limit
            &&& forall|i: int| 0 <= i < s@.len() ==> newer_first(row_view(#[trigger] s@[i]), (t, best_height(rs, t).unwrap()))
        } by {
            let k = choose|k: int| 0 <= k < u@.len() && (#[trigger] u@[k]).0@ == t;
            assert(has_row(full, u@[k]));
            let p = choose|p: int| 0 <= p < full.len() && full[p] == u@[k];
            if p < s@.len() {
                assert(s@[p] == full[p]);
                assert(s@[p].0@ == t);
            }
            assert(p >= s@.len());
            assert(best_height(rs, t) == Some(u@[k].1));
            assert forall|i: int| 0 <= i < s@.len() implies newer_first(row_view(#[trigger] s@[i]), (t, best_height(rs, t).unwrap())) by {
                assert(s@[i] == full[i]);
                assert(row_view(full[p]) == (t, best_height(rs, t).unwrap()));
            }
        }
    }
    s
}

} // verus!
