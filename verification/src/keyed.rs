//! A map keyed by strings, kept in ascending key order (the order of
//! `BTreeMap<String, _>`: lexicographic by Unicode scalar value, which is
//! also the byte order of UTF-8).

use vstd::prelude::*;
use crate::text::chars_of;

verus! {

/// Strict lexicographic order on character sequences.
pub open spec fn seq_lt(a: Seq<char>, b: Seq<char>) -> bool
    decreases a.len(),
{
    if a.len() == 0 {
        b.len() > 0
    } else if b.len() == 0 {
        false
    } else if a[0] != b[0] {
        (a[0] as u32) < (b[0] as u32)
    } else {
        seq_lt(a.drop_first(), b.drop_first())
    }
}

/// Distinct characters have distinct scalar values.
pub proof fn lemma_char_u32_injective(a: char, b: char)
    ensures
        (a as u32) == (b as u32) ==> a == b,
{
    vstd::utf8::char_u32_cast(a, a as u32);
    vstd::utf8::char_u32_cast(b, b as u32);
}

pub proof fn lemma_seq_lt_irreflexive(a: Seq<char>)
    ensures
        !seq_lt(a, a),
    decreases a.len(),
{
    if a.len() > 0 {
        lemma_seq_lt_irreflexive(a.drop_first());
    }
}

pub proof fn lemma_seq_lt_transitive(a: Seq<char>, b: Seq<char>, c: Seq<char>)
    requires
        seq_lt(a, b),
        seq_lt(b, c),
    ensures
        seq_lt(a, c),
    decreases a.len(),
{
    if a.len() > 0 && b.len() > 0 && c.len() > 0 {
        if a[0] == b[0] && b[0] == c[0] {
            lemma_seq_lt_transitive(a.drop_first(), b.drop_first(), c.drop_first());
        }
    }
}

pub proof fn lemma_seq_lt_total(a: Seq<char>, b: Seq<char>)
    ensures
        a == b || seq_lt(a, b) || seq_lt(b, a),
    decreases a.len(),
{
    if a.len() > 0 && b.len() > 0 {
        if a[0] != b[0] {
            lemma_char_u32_injective(a[0], b[0]);
        } else {
            lemma_seq_lt_total(a.drop_first(), b.drop_first());
            if a.drop_first() == b.drop_first() {
                assert(a =~= seq![a[0]] + a.drop_first());
                assert(b =~= seq![b[0]] + b.drop_first());
            }
        }
    } else if a.len() == 0 && b.len() == 0 {
        assert(a =~= b);
    }
}

pub proof fn lemma_seq_lt_asymmetric(a: Seq<char>, b: Seq<char>)
    requires
        seq_lt(a, b),
    ensures
        !seq_lt(b, a),
{
    if seq_lt(b, a) {
        lemma_seq_lt_transitive(a, b, a);
        lemma_seq_lt_irreflexive(a);
    }
}

/// How two strings compare.
pub enum KeyOrder {
    Less,
    Equal,
    Greater,
}

/// Compares two strings lexicographically by character.
pub fn compare_keys(a: &str, b: &str) -> (r: KeyOrder)
    ensures
        r is Less <==> seq_lt(a@, b@),
        r is Equal <==> a@ == b@,
        r is Greater <==> seq_lt(b@, a@),
{
    let x = chars_of(a);
    let y = chars_of(b);
    let mut i: usize = 0;
    proof {
        lemma_seq_lt_total(a@, b@);
        lemma_seq_lt_irreflexive(a@);
        if seq_lt(a@, b@) {
            lemma_seq_lt_asymmetric(a@, b@);
        }
        assert(a@.skip(0) =~= a@);
        assert(b@.skip(0) =~= b@);
    }
    while i < x.len() && i < y.len()
        invariant
            x@ == a@,
            y@ == b@,
            i <= x@.len(),
            i <= y@.len(),
            x@.take(i as int) =~= y@.take(i as int),
            seq_lt(a@, b@) == seq_lt(a@.skip(i as int), b@.skip(i as int)),
            seq_lt(b@, a@) == seq_lt(b@.skip(i as int), a@.skip(i as int)),
        decreases x@.len() - i,
    {
        if x[i] != y[i] {
            let ghost sa = a@.skip(i as int);
            let ghost sb = b@.skip(i as int);
            assert(sa[0] == x@[i as int] && sb[0] == y@[i as int]);
            assert(sa.len() > 0 && sb.len() > 0);
            proof {
                lemma_char_u32_injective(x@[i as int], y@[i as int]);
            }
            assert(seq_lt(sa, sb) == ((sa[0] as u32) < (sb[0] as u32)));
            assert(seq_lt(sb, sa) == ((sb[0] as u32) < (sa[0] as u32)));
            assert(a@ != b@) by {
                assert(a@[i as int] != b@[i as int]);
            }
            if (x[i] as u32) < (y[i] as u32) {
                return KeyOrder::Less;
            } else {
                return KeyOrder::Greater;
            }
        }
        let ghost sa = a@.skip(i as int);
        let ghost sb = b@.skip(i as int);
        assert(sa.drop_first() =~= a@.skip(i + 1));
        assert(sb.drop_first() =~= b@.skip(i + 1));
        assert(sa[0] == sb[0]);
        i = i + 1;
        assert(x@.take(i as int) =~= y@.take(i as int)) by {
            assert(x@.take(i as int) =~= x@.take(i - 1).push(x@[i - 1]));
            assert(y@.take(i as int) =~= y@.take(i - 1).push(y@[i - 1]));
        }
    }
    if x.len() == y.len() {
        assert(a@ =~= x@.take(i as int));
        assert(b@ =~= y@.take(i as int));
        KeyOrder::Equal
    } else if x.len() < y.len() {
        assert(a@.skip(i as int).len() == 0);
        assert(a@ != b@);
        KeyOrder::Less
    } else {
        assert(b@.skip(i as int).len() == 0);
        assert(a@ != b@);
        KeyOrder::Greater
    }
}

/// Keys in strictly ascending order.
pub open spec fn ascending<V>(entries: Seq<(String, V)>) -> bool {
    forall|i: int, j: int|
        0 <= i < j < entries.len() ==> seq_lt(#[trigger] entries[i].0@, #[trigger] entries[j].0@)
}

/// A string-keyed map stored as entries in ascending key order.
pub struct KeyedMap<V> {
    entries: Vec<(String, V)>,
}

/// The map a list of entries with distinct keys stands for.
pub open spec fn entries_map<V>(entries: Seq<(String, V)>) -> Map<Seq<char>, V>
    decreases entries.len(),
{
    if entries.len() == 0 {
        Map::empty()
    } else {
        entries_map(entries.drop_last()).insert(entries.last().0@, entries.last().1)
    }
}

pub proof fn lemma_entries_map_contains<V>(entries: Seq<(String, V)>, k: Seq<char>)
    requires
        ascending(entries),
    ensures
        entries_map(entries).contains_key(k) <==> exists|i: int|
            0 <= i < entries.len() && (#[trigger] entries[i]).0@ == k,
        forall|i: int|
            0 <= i < entries.len() && (#[trigger] entries[i]).0@ == k ==> entries_map(entries)[k]
                == entries[i].1,
    decreases entries.len(),
{
    if entries.len() > 0 {
        let pre = entries.drop_last();
        lemma_entries_map_contains(pre, k);
        let n = entries.len() - 1;
        assert forall|i: int| 0 <= i < pre.len() implies #[trigger] pre[i] == entries[i] by {}
        if exists|i: int| 0 <= i < entries.len() && (#[trigger] entries[i]).0@ == k {
            let i = choose|i: int| 0 <= i < entries.len() && (#[trigger] entries[i]).0@ == k;
            if i < n {
                assert(pre[i].0@ == k);
            }
        }
        assert forall|i: int|
            0 <= i < entries.len() && (#[trigger] entries[i]).0@ == k implies entries_map(
            entries,
        )[k] == entries[i].1 by {
            if i < n {
                assert(seq_lt(entries[i].0@, entries[n].0@));
                lemma_seq_lt_irreflexive(k);
                assert(entries[n].0@ != k);
                assert(pre[i] == entries[i]);
                assert(pre[i].0@ == k);
                assert(entries_map(pre)[k] == pre[i].1);
                assert(entries_map(entries) == entries_map(pre).insert(entries.last().0@, entries.last().1));
            }
        }
    }
}

impl<V> View for KeyedMap<V> {
    type V = Map<Seq<char>, V>;

    closed spec fn view(&self) -> Map<Seq<char>, V> {
        entries_map(self.entries@)
    }
}

impl<V> KeyedMap<V> {
    /// The entries, in ascending key order.
    pub closed spec fn entries(self) -> Seq<(String, V)> {
        self.entries@
    }

    /// Entries are kept in strictly ascending key order.
    pub closed spec fn wf(self) -> bool {
        ascending(self.entries@)
    }

    pub proof fn lemma_view(self, k: Seq<char>)
        requires
            self.wf(),
        ensures
            self@.contains_key(k) <==> exists|i: int|
                0 <= i < self.entries().len() && (#[trigger] self.entries()[i]).0@ == k,
            forall|i: int|
                0 <= i < self.entries().len() && (#[trigger] self.entries()[i]).0@ == k
                    ==> self@[k] == self.entries()[i].1,
    {
        lemma_entries_map_contains(self.entries@, k);
        assert(self.entries() == self.entries@);
        assert(self@ == entries_map(self.entries@));
        if exists|i: int| 0 <= i < self.entries().len() && (#[trigger] self.entries()[i]).0@ == k {
            let i = choose|i: int| 0 <= i < self.entries().len() && (#[trigger] self.entries()[i]).0@ == k;
            assert(self.entries@[i].0@ == k);
        }
    }

    /// The view is the map the entries stand for.
    pub proof fn lemma_entries_view(self)
        requires
            self.wf(),
        ensures
            self@ == entries_map(self.entries()),
            ascending(self.entries()),
    {
    }

    pub fn new() -> (m: Self)
        ensures
            m.wf(),
            m@ == Map::<Seq<char>, V>::empty(),
            m.entries().len() == 0,
    {
        KeyedMap { entries: Vec::new() }
    }

    pub fn len(&self) -> (n: usize)
        ensures
            n == self.entries().len(),
    {
        self.entries.len()
    }

    /// Where `key` is, or where it would go.
    fn search(&self, key: &str) -> (r: (bool, usize))
        requires
            self.wf(),
        ensures
            r.1 <= self.entries().len(),
            forall|i: int| 0 <= i < r.1 ==> seq_lt(#[trigger] self.entries()[i].0@, key@),
            r.0 ==> r.1 < self.entries().len() && self.entries()[r.1 as int].0@ == key@,
            !r.0 ==> forall|i: int|
                r.1 <= i < self.entries().len() ==> seq_lt(key@, #[trigger] self.entries()[i].0@),
    {
        let mut i: usize = 0;
        while i < self.entries.len()
            invariant
                i <= self.entries@.len(),
                ascending(self.entries@),
                forall|j: int| 0 <= j < i ==> seq_lt(#[trigger] self.entries@[j].0@, key@),
            decreases self.entries@.len() - i,
        {
            match compare_keys(self.entries[i].0.as_str(), key) {
                KeyOrder::Less => {},
                KeyOrder::Equal => {
                    return (true, i);
                },
                KeyOrder::Greater => {
                    assert forall|j: int| i <= j < self.entries@.len() implies seq_lt(
                        key@,
                        #[trigger] self.entries@[j].0@,
                    ) by {
                        if j > i {
                            lemma_seq_lt_transitive(key@, self.entries@[i as int].0@, self.entries@[j].0@);
                        }
                    }
                    return (false, i);
                },
            }
            i = i + 1;
        }
        (false, i)
    }

    /// The value stored under `key`.
    pub fn get(&self, key: &str) -> (r: Option<&V>)
        requires
            self.wf(),
        ensures
            r matches Some(v) ==> self@.contains_key(key@) && self@[key@] == *v,
            r is None ==> !self@.contains_key(key@),
    {
        let (found, i) = self.search(key);
        proof {
            self.lemma_view(key@);
            if !found {
                assert forall|j: int| 0 <= j < self.entries().len() implies (#[trigger] self.entries()[j]).0@ != key@ by {
                    if j < i {
                        lemma_seq_lt_irreflexive(key@);
                    } else {
                        lemma_seq_lt_irreflexive(key@);
                    }
                }
            }
        }
        if found {
            Some(&self.entries[i].1)
        } else {
            None
        }
    }

    /// Whether `key` is present.
    pub fn contains(&self, key: &str) -> (r: bool)
        requires
            self.wf(),
        ensures
            r == self@.contains_key(key@),
    {
        match self.get(key) {
            Some(_) => true,
            None => false,
        }
    }

    /// The entry at position `i` (ascending key order).
    pub fn entry_at(&self, i: usize) -> (r: (&String, &V))
        requires
            i < self.entries().len(),
        ensures
            *r.0 == self.entries()[i as int].0,
            *r.1 == self.entries()[i as int].1,
    {
        let e = &self.entries[i];
        (&e.0, &e.1)
    }

    /// Stores `v` under `key`, returning what was stored there before.
    pub fn insert(&mut self, key: &str, v: V) -> (r: Option<V>)
        requires
            old(self).wf(),
        ensures
            final(self).wf(),
            final(self)@ == old(self)@.insert(key@, v),
            r matches Some(p) ==> old(self)@.contains_key(key@) && old(self)@[key@] == p,
            r is None ==> !old(self)@.contains_key(key@),
    {
        let (found, i) = self.search(key);
        let ghost o = self.entries@;
        proof {
            lemma_entries_map_contains(o, key@);
            lemma_seq_lt_irreflexive(key@);
        }
        if found {
            let old_entry = self.entries.remove(i);
            self.entries.insert(i, (old_entry.0, v));
            let prev = old_entry.1;
            let ghost n = self.entries@;
            assert(n =~= o.update(i as int, (o[i as int].0, v)));
            assert(ascending(n)) by {
                assert forall|a: int, b: int| 0 <= a < b < n.len() implies seq_lt(
                    #[trigger] n[a].0@,
                    #[trigger] n[b].0@,
                ) by {
                    assert(n[a].0 == o[a].0 && n[b].0 == o[b].0);
                }
            }
            proof {
                self.lemma_map_update(o, n, i as int, key@, v);
            }
            Some(prev)
        } else {
            self.entries.insert(i, (crate::text::owned(key), v));
            let ghost n = self.entries@;
            assert(ascending(n)) by {
                assert forall|a: int, b: int| 0 <= a < b < n.len() implies seq_lt(
                    #[trigger] n[a].0@,
                    #[trigger] n[b].0@,
                ) by {
                    if a < i && b == i {
                    } else if a < i && b > i {
                        assert(n[b] == o[b - 1]);
                    } else if a == i {
                        assert(n[b] == o[b - 1]);
                    } else if a > i {
                        assert(n[a] == o[a - 1] && n[b] == o[b - 1]);
                    } else {
                        assert(n[a] == o[a] && n[b] == o[b]);
                    }
                }
            }
            proof {
                self.lemma_map_insert(o, n, i as int, key@, v);
            }
            None
        }
    }

    proof fn lemma_map_update(self, o: Seq<(String, V)>, n: Seq<(String, V)>, i: int, k: Seq<char>, v: V)
        requires
            ascending(o),
            ascending(n),
            0 <= i < o.len(),
            o[i].0@ == k,
            n == o.update(i, (o[i].0, v)),
        ensures
            entries_map(n) == entries_map(o).insert(k, v),
    {
        assert forall|x: Seq<char>| #[trigger] entries_map(n).contains_key(x) == entries_map(o).insert(k, v).contains_key(x)
            && (entries_map(n).contains_key(x) ==> entries_map(n)[x] == entries_map(o).insert(k, v)[x]) by {
            lemma_entries_map_contains(o, x);
            lemma_entries_map_contains(n, x);
            if x == k {
                assert(n[i].0@ == x);
            } else {
                if exists|j: int| 0 <= j < o.len() && (#[trigger] o[j]).0@ == x {
                    let j = choose|j: int| 0 <= j < o.len() && (#[trigger] o[j]).0@ == x;
                    assert(n[j].0@ == x);
                }
                if exists|j: int| 0 <= j < n.len() && (#[trigger] n[j]).0@ == x {
                    let j = choose|j: int| 0 <= j < n.len() && (#[trigger] n[j]).0@ == x;
                    assert(o[j].0@ == x);
                }
            }
        }
        assert(entries_map(n) =~= entries_map(o).insert(k, v));
    }

    proof fn lemma_map_insert(self, o: Seq<(String, V)>, n: Seq<(String, V)>, i: int, k: Seq<char>, v: V)
        requires
            ascending(o),
            ascending(n),
            0 <= i <= o.len(),
            n.len() == o.len() + 1,
            n[i].0@ == k,
            n[i].1 == v,
            forall|j: int| 0 <= j < i ==> n[j] == o[j],
            forall|j: int| i < j < n.len() ==> n[j] == o[j - 1],
        ensures
            entries_map(n) == entries_map(o).insert(k, v),
    {
        assert forall|x: Seq<char>| #[trigger] entries_map(n).contains_key(x) == entries_map(o).insert(k, v).contains_key(x)
            && (entries_map(n).contains_key(x) ==> entries_map(n)[x] == entries_map(o).insert(k, v)[x]) by {
            lemma_entries_map_contains(o, x);
            lemma_entries_map_contains(n, x);
            if x == k {
                assert(n[i].0@ == x);
            } else {
                if exists|j: int| 0 <= j < o.len() && (#[trigger] o[j]).0@ == x {
                    let j = choose|j: int| 0 <= j < o.len() && (#[trigger] o[j]).0@ == x;
                    if j < i {
                        assert(n[j].0@ == x);
                    } else {
                        assert(n[j + 1].0@ == x);
                    }
                }
                if exists|j: int| 0 <= j < n.len() && (#[trigger] n[j]).0@ == x {
                    let j = choose|j: int| 0 <= j < n.len() && (#[trigger] n[j]).0@ == x;
                    if j < i {
                        assert(o[j].0@ == x);
                    } else {
                        assert(o[j - 1].0@ == x);
                    }
                }
            }
        }
        assert(entries_map(n) =~= entries_map(o).insert(k, v));
    }

    /// Removes `key`, returning what was stored there.
    pub fn remove(&mut self, key: &str) -> (r: Option<V>)
        requires
            old(self).wf(),
        ensures
            final(self).wf(),
            final(self)@ == old(self)@.remove(key@),
            r matches Some(p) ==> old(self)@.contains_key(key@) && old(self)@[key@] == p,
            r is None ==> !old(self)@.contains_key(key@),
    {
        let (found, i) = self.search(key);
        let ghost o = self.entries@;
        proof {
            lemma_entries_map_contains(o, key@);
            lemma_seq_lt_irreflexive(key@);
        }
        if found {
            let e = self.entries.remove(i);
            let ghost n = self.entries@;
            assert(ascending(n)) by {
                assert forall|a: int, b: int| 0 <= a < b < n.len() implies seq_lt(
                    #[trigger] n[a].0@,
                    #[trigger] n[b].0@,
                ) by {
                    if a < i && b >= i {
                        assert(n[b] == o[b + 1]);
                    } else if a >= i {
                        assert(n[a] == o[a + 1] && n[b] == o[b + 1]);
                    } else {
                        assert(n[a] == o[a] && n[b] == o[b]);
                    }
                }
            }
            proof {
                assert forall|x: Seq<char>| #[trigger] entries_map(n).contains_key(x) == entries_map(o).remove(key@).contains_key(x)
                    && (entries_map(n).contains_key(x) ==> entries_map(n)[x] == entries_map(o).remove(key@)[x]) by {
                    lemma_entries_map_contains(o, x);
                    lemma_entries_map_contains(n, x);
                    if x == key@ {
                        if exists|j: int| 0 <= j < n.len() && (#[trigger] n[j]).0@ == x {
                            let j = choose|j: int| 0 <= j < n.len() && (#[trigger] n[j]).0@ == x;
                            if j < i {
                                assert(seq_lt(o[j].0@, o[i as int].0@));
                            } else {
                                assert(n[j] == o[j + 1]);
                                assert(seq_lt(o[i as int].0@, o[j + 1].0@));
                            }
                        }
                    } else {
                        if exists|j: int| 0 <= j < o.len() && (#[trigger] o[j]).0@ == x {
                            let j = choose|j: int| 0 <= j < o.len() && (#[trigger] o[j]).0@ == x;
                            if j < i {
                                assert(n[j].0@ == x);
                            } else {
                                assert(n[j - 1].0@ == x);
                            }
                        }
                        if exists|j: int| 0 <= j < n.len() && (#[trigger] n[j]).0@ == x {
                            let j = choose|j: int| 0 <= j < n.len() && (#[trigger] n[j]).0@ == x;
                            if j < i {
                                assert(o[j].0@ == x);
                            } else {
                                assert(o[j + 1].0@ == x);
                            }
                        }
                    }
                }
                assert(entries_map(n) =~= entries_map(o).remove(key@));
            }
            Some(e.1)
        } else {
            proof {
                assert forall|j: int| 0 <= j < o.len() implies (#[trigger] o[j]).0@ != key@ by {}
                assert(entries_map(o) =~= entries_map(o).remove(key@));
            }
            None
        }
    }

    /// Appends an entry whose key is greater than every present key.
    pub fn push_greatest(&mut self, key: String, v: V)
        requires
            old(self).wf(),
            old(self).entries().len() == 0 || seq_lt(old(self).entries().last().0@, key@),
        ensures
            final(self).wf(),
            final(self).entries() == old(self).entries().push((key, v)),
            final(self)@ == old(self)@.insert(key@, v),
    {
        let ghost o = self.entries@;
        self.entries.push((key, v));
        let ghost n = self.entries@;
        assert(n.drop_last() =~= o);
        assert(ascending(n)) by {
            assert forall|a: int, b: int| 0 <= a < b < n.len() implies seq_lt(
                #[trigger] n[a].0@,
                #[trigger] n[b].0@,
            ) by {
                if b == n.len() - 1 && a < b - 1 {
                    lemma_seq_lt_transitive(n[a].0@, o.last().0@, key@);
                } else if b < n.len() - 1 {
                    assert(n[a] == o[a] && n[b] == o[b]);
                }
            }
        }
    }

    /// The entries, consuming the map.
    pub fn into_entries(self) -> (r: Vec<(String, V)>)
        ensures
            r@ == self.entries(),
    {
        self.entries
    }
}

} // verus!
