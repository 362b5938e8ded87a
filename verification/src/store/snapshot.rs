//! One state of the key-value map: a list of entries kept strictly sorted by
//! key, so that a map has exactly one representation.

use vstd::prelude::*;
use crate::store::key::{compare, copy_bytes, lemma_lt_asymmetric, lemma_lt_total,
    lemma_lt_transitive, lex_lt, Order};

verus! {

/// The mathematical form of a list of entries: pairs of key and value.
pub type Pairs = Seq<(Seq<u8>, Seq<u8>)>;

/// The keys of `s` are strictly increasing.
pub open spec fn sorted(s: Pairs) -> bool {
    forall|i: int, j: int| 0 <= i < j < s.len() ==> lex_lt(#[trigger] s[i].0, #[trigger] s[j].0)
}

/// Some entry of `s` has key `k`.
pub open spec fn has_key(s: Pairs, k: Seq<u8>) -> bool {
    exists|i: int| 0 <= i < s.len() && #[trigger] s[i].0 == k
}

/// An index at which `s` holds key `k`, if there is one.
pub open spec fn index_of(s: Pairs, k: Seq<u8>) -> int {
    choose|i: int| 0 <= i < s.len() && #[trigger] s[i].0 == k
}

/// The map that the entries of `s` stand for.
pub open spec fn to_map(s: Pairs) -> Map<Seq<u8>, Seq<u8>> {
    Map::new(|k: Seq<u8>| has_key(s, k), |k: Seq<u8>| s[index_of(s, k)].1)
}

/// The value under `k` in `m`, if any.
pub open spec fn lookup(m: Map<Seq<u8>, Seq<u8>>, k: Seq<u8>) -> Option<Seq<u8>> {
    if m.contains_key(k) {
        Some(m[k])
    } else {
        None
    }
}

/// The sorted list of entries that stands for `m`. Every finite map has
/// exactly one (`lemma_sorted_unique`), and a snapshot holds it
/// (`Snapshot::lemma_canonical`).
pub open spec fn canonical(m: Map<Seq<u8>, Seq<u8>>) -> Pairs {
    choose|s: Pairs| sorted(s) && to_map(s) == m
}

/// In a sorted list a key stands at one index only.
pub proof fn lemma_index_of(s: Pairs, i: int)
    requires
        sorted(s),
        0 <= i < s.len(),
    ensures
        has_key(s, s[i].0),
        index_of(s, s[i].0) == i,
        to_map(s).contains_key(s[i].0),
        to_map(s)[s[i].0] == s[i].1,
{
    let j = index_of(s, s[i].0);
    if j < i {
        lemma_lt_asymmetric(s[j].0, s[i].0);
    } else if i < j {
        lemma_lt_asymmetric(s[i].0, s[j].0);
    }
}

/// Putting `(k, v)` at index `i` of a sorted list, between the smaller keys
/// and the larger ones, adds `k => v` to the map.
pub proof fn lemma_insert_at(s: Pairs, i: int, k: Seq<u8>, v: Seq<u8>)
    requires
        sorted(s),
        0 <= i <= s.len(),
        forall|j: int| 0 <= j < i ==> lex_lt(#[trigger] s[j].0, k),
        forall|j: int| i <= j < s.len() ==> lex_lt(k, #[trigger] s[j].0),
    ensures
        sorted(s.insert(i, (k, v))),
        to_map(s.insert(i, (k, v))) == to_map(s).insert(k, v),
{
    let t = s.insert(i, (k, v));
    assert forall|a: int, b: int| 0 <= a < b < t.len() implies lex_lt(
        #[trigger] t[a].0,
        #[trigger] t[b].0,
    ) by {
        if b < i {
            assert(t[a] == s[a] && t[b] == s[b]);
        } else if b == i {
            assert(t[a] == s[a]);
        } else if a < i {
            assert(t[a] == s[a] && t[b] == s[b - 1]);
            if b - 1 == a {
            }
            lemma_lt_transitive(s[a].0, k, s[b - 1].0);
        } else if a == i {
            assert(t[b] == s[b - 1]);
        } else {
            assert(t[a] == s[a - 1] && t[b] == s[b - 1]);
        }
    }
    assert forall|q: Seq<u8>| to_map(t).contains_key(q) <==> to_map(s).insert(k, v).contains_key(
        q,
    ) by {
        if has_key(t, q) {
            let a = index_of(t, q);
            if a < i {
                assert(s[a].0 == q);
            } else if a > i {
                assert(s[a - 1].0 == q);
            }
        }
        if q == k {
            assert(t[i].0 == k);
        } else if has_key(s, q) {
            let a = index_of(s, q);
            if a < i {
                assert(t[a].0 == q);
            } else {
                assert(t[a + 1].0 == q);
            }
        }
    }
    assert forall|q: Seq<u8>| to_map(t).contains_key(q) implies to_map(t)[q] == to_map(s).insert(
        k,
        v,
    )[q] by {
        let a = index_of(t, q);
        lemma_index_of(t, a);
        if a < i {
            assert(t[a] == s[a]);
            lemma_index_of(s, a);
            lemma_lt_asymmetric(s[a].0, k);
        } else if a > i {
            assert(t[a] == s[a - 1]);
            lemma_index_of(s, a - 1);
            lemma_lt_asymmetric(k, s[a - 1].0);
        }
    }
    assert(to_map(t) =~= to_map(s).insert(k, v));
}

/// Replacing the value at index `i` of a sorted list replaces it in the map.
pub proof fn lemma_update_at(s: Pairs, i: int, v: Seq<u8>)
    requires
        sorted(s),
        0 <= i < s.len(),
    ensures
        sorted(s.update(i, (s[i].0, v))),
        to_map(s.update(i, (s[i].0, v))) == to_map(s).insert(s[i].0, v),
{
    let k = s[i].0;
    let t = s.update(i, (k, v));
    assert forall|a: int, b: int| 0 <= a < b < t.len() implies lex_lt(
        #[trigger] t[a].0,
        #[trigger] t[b].0,
    ) by {
        assert(t[a].0 == s[a].0 && t[b].0 == s[b].0);
    }
    assert forall|q: Seq<u8>| to_map(t).contains_key(q) <==> to_map(s).insert(k, v).contains_key(
        q,
    ) by {
        if has_key(t, q) {
            let a = index_of(t, q);
            assert(s[a].0 == q);
        }
        if q == k {
            assert(t[i].0 == k);
        } else if has_key(s, q) {
            let a = index_of(s, q);
            assert(t[a].0 == q);
        }
    }
    assert forall|q: Seq<u8>| to_map(t).contains_key(q) implies to_map(t)[q] == to_map(s).insert(
        k,
        v,
    )[q] by {
        let a = index_of(t, q);
        lemma_index_of(t, a);
        if a != i {
            assert(t[a] == s[a]);
            lemma_index_of(s, a);
            if a < i {
                lemma_lt_asymmetric(s[a].0, k);
            } else {
                lemma_lt_asymmetric(k, s[a].0);
            }
        }
    }
    assert(to_map(t) =~= to_map(s).insert(k, v));
}

/// Taking the entry at index `i` out of a sorted list removes its key from
/// the map.
pub proof fn lemma_remove_at(s: Pairs, i: int)
    requires
        sorted(s),
        0 <= i < s.len(),
    ensures
        sorted(s.remove(i)),
        to_map(s.remove(i)) == to_map(s).remove(s[i].0),
{
    let k = s[i].0;
    let t = s.remove(i);
    assert forall|a: int, b: int| 0 <= a < b < t.len() implies lex_lt(
        #[trigger] t[a].0,
        #[trigger] t[b].0,
    ) by {
        let a0 = if a < i { a } else { a + 1 };
        let b0 = if b < i { b } else { b + 1 };
        assert(t[a] == s[a0] && t[b] == s[b0]);
    }
    assert forall|q: Seq<u8>| to_map(t).contains_key(q) <==> to_map(s).remove(k).contains_key(
        q,
    ) by {
        if has_key(t, q) {
            let a = index_of(t, q);
            let a0 = if a < i { a } else { a + 1 };
            assert(s[a0].0 == q);
            if a0 < i {
                lemma_lt_asymmetric(s[a0].0, k);
            } else {
                lemma_lt_asymmetric(k, s[a0].0);
            }
        }
        if q != k && has_key(s, q) {
            let a = index_of(s, q);
            if a < i {
                assert(t[a].0 == q);
            } else {
                assert(t[a - 1].0 == q);
            }
        }
    }
    assert forall|q: Seq<u8>| to_map(t).contains_key(q) implies to_map(t)[q] == to_map(s).remove(
        k,
    )[q] by {
        let a = index_of(t, q);
        lemma_index_of(t, a);
        let a0 = if a < i { a } else { a + 1 };
        assert(t[a] == s[a0]);
        lemma_index_of(s, a0);
    }
    assert(to_map(t) =~= to_map(s).remove(k));
}

/// A key that lies strictly between two neighbours of a sorted list, before
/// its first key or after its last one, is not in the map.
pub proof fn lemma_gap(s: Pairs, i: int, k: Seq<u8>)
    requires
        sorted(s),
        0 <= i <= s.len(),
        forall|j: int| 0 <= j < i ==> lex_lt(#[trigger] s[j].0, k),
        forall|j: int| i <= j < s.len() ==> lex_lt(k, #[trigger] s[j].0),
    ensures
        !to_map(s).contains_key(k),
{
    if has_key(s, k) {
        let a = index_of(s, k);
        if a < i {
            lemma_lt_asymmetric(s[a].0, k);
        } else {
            lemma_lt_asymmetric(k, s[a].0);
        }
    }
}

/// Two sorted lists that stand for the same map are the same list.
pub proof fn lemma_sorted_unique(a: Pairs, b: Pairs)
    requires
        sorted(a),
        sorted(b),
        to_map(a) == to_map(b),
    ensures
        a == b,
    decreases a.len(),
{
    if a.len() == 0 {
        if b.len() > 0 {
            lemma_index_of(b, 0);
            assert(to_map(a).contains_key(b[0].0));
        }
        assert(a =~= b);
    } else if b.len() == 0 {
        lemma_index_of(a, 0);
        assert(to_map(b).contains_key(a[0].0));
    } else {
        let n = a.len() - 1;
        let m = b.len() - 1;
        // The two last keys are each the largest of the same set.
        lemma_index_of(a, n);
        lemma_index_of(b, m);
        assert(has_key(b, a[n].0));
        assert(has_key(a, b[m].0));
        let ib = index_of(b, a[n].0);
        let ia = index_of(a, b[m].0);
        if a[n].0 != b[m].0 {
            assert(ib < m);
            assert(ia < n);
            lemma_lt_transitive(a[n].0, b[m].0, a[n].0);
            lemma_lt_asymmetric(a[n].0, a[n].0);
        }
        assert(a[n] == b[m]);
        lemma_remove_at(a, n);
        lemma_remove_at(b, m);
        assert(a.remove(n) =~= a.drop_last());
        assert(b.remove(m) =~= b.drop_last());
        lemma_sorted_unique(a.drop_last(), b.drop_last());
        assert(a =~= a.drop_last().push(a[n]));
        assert(b =~= b.drop_last().push(b[m]));
    }
}

/// One key with its value.
pub struct Entry {
    pub key: Vec<u8>,
    pub value: Vec<u8>,
}

impl Entry {
    /// The entry as a pair of byte strings.
    pub open spec fn pair(self) -> (Seq<u8>, Seq<u8>) {
        (self.key@, self.value@)
    }
}

/// A key-value map held as a strictly sorted list of entries.
pub struct Snapshot {
    entries: Vec<Entry>,
}

impl View for Snapshot {
    type V = Map<Seq<u8>, Seq<u8>>;

    closed spec fn view(&self) -> Map<Seq<u8>, Seq<u8>> {
        to_map(self.pairs())
    }
}

impl Snapshot {
    /// The entries in their stored order.
    pub closed spec fn pairs(&self) -> Pairs {
        self.entries@.map_values(|e: Entry| e.pair())
    }

    /// The representation invariant: the keys are strictly increasing.
    pub closed spec fn wf(&self) -> bool {
        sorted(self.pairs())
    }

    /// The stored list is the one sorted list of the map it stands for.
    pub proof fn lemma_canonical(&self)
        requires
            self.wf(),
        ensures
            self.pairs() == canonical(self@),
            sorted(self.pairs()),
            to_map(self.pairs()) == self@,
    {
        let c = canonical(self@);
        assert(sorted(self.pairs()) && to_map(self.pairs()) == self@);
        lemma_sorted_unique(self.pairs(), c);
    }

    /// Two well-formed snapshots of the same map hold the same list.
    pub proof fn lemma_same_map_same_pairs(&self, other: &Snapshot)
        requires
            self.wf(),
            other.wf(),
            self@ == other@,
        ensures
            self.pairs() == other.pairs(),
    {
        lemma_sorted_unique(self.pairs(), other.pairs());
    }

    /// The empty map.
    pub fn new() -> (s: Snapshot)
        ensures
            s.wf(),
            s@ == Map::<Seq<u8>, Seq<u8>>::empty(),
            s.pairs().len() == 0,
    {
        let s = Snapshot { entries: Vec::new() };
        assert(s@ =~= Map::<Seq<u8>, Seq<u8>>::empty());
        s
    }

    /// The number of entries.
    pub fn len(&self) -> (n: usize)
        ensures
            n == self.pairs().len(),
    {
        self.entries.len()
    }

    /// The entry at index `i` in key order.
    pub fn entry(&self, i: usize) -> (e: &Entry)
        requires
            i < self.pairs().len(),
        ensures
            e.pair() == self.pairs()[i as int],
    {
        &self.entries[i]
    }

    /// Where `key` stands: `Ok(i)` if the entry at `i` holds it, else
    /// `Err(i)` with `i` the index at which it would have to be inserted.
    pub fn find(&self, key: &[u8]) -> (r: Result<usize, usize>)
        requires
            self.wf(),
        ensures
            match r {
                Ok(i) => i < self.pairs().len() && self.pairs()[i as int].0 == key@,
                Err(i) => {
                    &&& i <= self.pairs().len()
                    &&& forall|j: int| 0 <= j < i ==> lex_lt(#[trigger] self.pairs()[j].0, key@)
                    &&& forall|j: int|
                        i <= j < self.pairs().len() ==> lex_lt(key@, #[trigger] self.pairs()[j].0)
                },
            },
    {
        let ghost s = self.pairs();
        let mut lo: usize = 0;
        let mut hi: usize = self.entries.len();
        while lo < hi
            invariant
                s == self.pairs(),
                sorted(s),
                0 <= lo <= hi <= s.len(),
                s.len() == self.entries.len(),
                forall|j: int| 0 <= j < lo ==> lex_lt(#[trigger] s[j].0, key@),
                forall|j: int| hi <= j < s.len() ==> lex_lt(key@, #[trigger] s[j].0),
            decreases hi - lo,
        {
            let mid = lo + (hi - lo) / 2;
            assert(s[mid as int] == self.entries@[mid as int].pair());
            match compare(self.entries[mid].key.as_slice(), key) {
                Order::Equal => {
                    return Ok(mid);
                },
                Order::Less => {
                    assert forall|j: int| 0 <= j < mid + 1 implies lex_lt(
                        #[trigger] s[j].0,
                        key@,
                    ) by {
                        if j < mid {
                            lemma_lt_transitive(s[j].0, s[mid as int].0, key@);
                        }
                    }
                    lo = mid + 1;
                },
                Order::Greater => {
                    proof {
                        lemma_lt_total(s[mid as int].0, key@);
                    }
                    assert forall|j: int| mid <= j < s.len() implies lex_lt(
                        key@,
                        #[trigger] s[j].0,
                    ) by {
                        if mid < j {
                            lemma_lt_transitive(key@, s[mid as int].0, s[j].0);
                        }
                    }
                    hi = mid;
                },
            }
        }
        Err(lo)
    }

    /// The value stored under `key`, if any.
    pub fn get(&self, key: &[u8]) -> (r: Option<&Vec<u8>>)
        requires
            self.wf(),
        ensures
            match r {
                Some(v) => lookup(self@, key@) == Some(v@),
                None => lookup(self@, key@).is_none(),
            },
    {
        match self.find(key) {
            Ok(i) => {
                proof {
                    lemma_index_of(self.pairs(), i as int);
                }
                Some(&self.entries[i].value)
            },
            Err(i) => {
                proof {
                    lemma_gap(self.pairs(), i as int, key@);
                }
                None
            },
        }
    }

    /// Stores `value` under `key` and returns the value it replaces, if any.
    pub fn insert(&mut self, key: Vec<u8>, value: Vec<u8>) -> (r: Option<Vec<u8>>)
        requires
            old(self).wf(),
        ensures
            final(self).wf(),
            final(self)@ == old(self)@.insert(key@, value@),
            match r {
                Some(v) => lookup(old(self)@, key@) == Some(v@),
                None => lookup(old(self)@, key@).is_none(),
            },
    {
        let ghost s = self.pairs();
        match self.find(key.as_slice()) {
            Ok(i) => {
                let previous = self.entries.remove(i);
                self.entries.insert(i, Entry { key, value });
                proof {
                    lemma_index_of(s, i as int);
                    lemma_update_at(s, i as int, value@);
                    assert(self.pairs() =~= s.update(i as int, (s[i as int].0, value@)));
                    assert(previous.pair() == s[i as int]);
                }
                Some(previous.value)
            },
            Err(i) => {
                self.entries.insert(i, Entry { key, value });
                proof {
                    lemma_gap(s, i as int, key@);
                    lemma_insert_at(s, i as int, key@, value@);
                    assert(self.pairs() =~= s.insert(i as int, (key@, value@)));
                }
                None
            },
        }
    }

    /// Removes `key` and returns the value it held, if any.
    pub fn remove(&mut self, key: &[u8]) -> (r: Option<Vec<u8>>)
        requires
            old(self).wf(),
        ensures
            final(self).wf(),
            final(self)@ == old(self)@.remove(key@),
            match r {
                Some(v) => lookup(old(self)@, key@) == Some(v@),
                None => lookup(old(self)@, key@).is_none(),
            },
    {
        let ghost s = self.pairs();
        match self.find(key) {
            Ok(i) => {
                let previous = self.entries.remove(i);
                proof {
                    lemma_index_of(s, i as int);
                    lemma_remove_at(s, i as int);
                    assert(self.pairs() =~= s.remove(i as int));
                    assert(previous.pair() == s[i as int]);
                }
                Some(previous.value)
            },
            Err(i) => {
                proof {
                    lemma_gap(s, i as int, key@);
                    assert(self@ =~= old(self)@.remove(key@));
                }
                None
            },
        }
    }

    /// Takes the entry with the largest key out of the map, if the map is
    /// not empty.
    pub fn pop(&mut self) -> (r: Option<Entry>)
        requires
            old(self).wf(),
        ensures
            final(self).wf(),
            match r {
                Some(e) => {
                    &&& old(self).pairs().len() > 0
                    &&& lookup(old(self)@, e.key@) == Some(e.value@)
                    &&& final(self)@ == old(self)@.remove(e.key@)
                    &&& final(self).pairs() == old(self).pairs().drop_last()
                },
                None => {
                    &&& old(self).pairs().len() == 0
                    &&& final(self).pairs() == old(self).pairs()
                    &&& final(self)@ == old(self)@
                },
            },
    {
        let ghost s = self.pairs();
        match self.entries.pop() {
            Some(e) => {
                proof {
                    let n = s.len() - 1;
                    assert(e == old(self).entries@[n]);
                    assert(e.pair() == s[n]);
                    lemma_index_of(s, n);
                    lemma_remove_at(s, n);
                    assert(s.remove(n) =~= s.drop_last());
                    assert(self.pairs() =~= s.drop_last());
                }
                Some(e)
            },
            None => None,
        }
    }

    /// A snapshot without entries stands for the empty map, and no other
    /// snapshot does.
    pub proof fn lemma_no_entries(&self)
        requires
            self.wf(),
        ensures
            (self.pairs().len() == 0) == (self@ == Map::<Seq<u8>, Seq<u8>>::empty()),
    {
        if self.pairs().len() == 0 {
            assert(self@ =~= Map::<Seq<u8>, Seq<u8>>::empty());
        } else {
            lemma_index_of(self.pairs(), 0);
        }
    }

    /// Whether the map holds no entry.
    pub fn is_empty(&self) -> (r: bool)
        requires
            self.wf(),
        ensures
            r == (self.pairs().len() == 0),
            r == (self@ == Map::<Seq<u8>, Seq<u8>>::empty()),
    {
        proof {
            self.lemma_no_entries();
        }
        self.entries.len() == 0
    }

    /// A copy of this snapshot, byte for byte.
    pub fn duplicate(&self) -> (s: Snapshot)
        ensures
            s.pairs() == self.pairs(),
            s@ == self@,
            s.wf() == self.wf(),
    {
        let mut entries: Vec<Entry> = Vec::with_capacity(self.entries.len());
        let mut i: usize = 0;
        while i < self.entries.len()
            invariant
                0 <= i <= self.entries.len(),
                entries@.len() == i,
                forall|j: int| 0 <= j < i ==> entries@[j].pair() == self.entries@[j].pair(),
            decreases self.entries.len() - i,
        {
            let e = &self.entries[i];
            entries.push(
                Entry { key: copy_bytes(e.key.as_slice()), value: copy_bytes(e.value.as_slice()) },
            );
            i += 1;
        }
        let s = Snapshot { entries };
        assert(s.pairs() =~= self.pairs());
        s
    }
}

} // verus!
