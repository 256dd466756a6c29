//! A keyed table: a vector of (key, value) entries whose keys are pairwise
//! distinct, viewed as a finite map. It stands for the hash maps of the
//! managers; lookups, inserts and removals behave as on a map, and the order
//! of the entries is the order in which iteration visits them.

use vstd::prelude::*;

verus! {

/// Keys with an executable equality that agrees with spec equality.
pub trait TableKey: Sized + Copy {
    fn same_key(&self, other: &Self) -> (r: bool)
        ensures
            r == (*self == *other),
    ;
}

impl TableKey for u64 {
    fn same_key(&self, other: &Self) -> (r: bool) {
        *self == *other
    }
}

impl TableKey for u128 {
    fn same_key(&self, other: &Self) -> (r: bool) {
        *self == *other
    }
}

/// Whether the keys of the entries are pairwise distinct.
pub open spec fn keys_unique<K, V>(s: Seq<(K, V)>) -> bool {
    forall|i: int, j: int| 0 <= i < s.len() && 0 <= j < s.len() && s[i].0 == s[j].0 ==> i == j
}

/// Whether some entry has key `k`.
pub open spec fn has_key<K, V>(s: Seq<(K, V)>, k: K) -> bool {
    exists|i: int| 0 <= i < s.len() && s[i].0 == k
}

/// The map that the entries stand for.
pub open spec fn table_view<K, V>(s: Seq<(K, V)>) -> Map<K, V> {
    Map::new(
        |k: K| has_key(s, k),
        |k: K| s[choose|i: int| 0 <= i < s.len() && s[i].0 == k].1,
    )
}

/// The number of entries whose value satisfies `p`.
pub open spec fn count_where<K, V>(s: Seq<(K, V)>, p: spec_fn(V) -> bool) -> nat
    decreases s.len(),
{
    if s.len() == 0 {
        0
    } else {
        count_where(s.drop_last(), p) + if p(s.last().1) { 1nat } else { 0nat }
    }
}

/// The number of keys of `m` whose value satisfies `p`.
pub open spec fn map_count_where<K, V>(m: Map<K, V>, p: spec_fn(V) -> bool) -> nat {
    m.dom().filter(|k: K| p(m[k])).len()
}

pub proof fn lemma_entry_in_view<K, V>(s: Seq<(K, V)>, i: int)
    requires
        keys_unique(s),
        0 <= i < s.len(),
    ensures
        table_view(s).contains_key(s[i].0),
        table_view(s)[s[i].0] == s[i].1,
{
    assert(has_key(s, s[i].0));
    let j = choose|j: int| 0 <= j < s.len() && s[j].0 == s[i].0;
    assert(j == i);
}

pub proof fn lemma_view_push<K, V>(s: Seq<(K, V)>, k: K, v: V)
    requires
        keys_unique(s),
        !has_key(s, k),
    ensures
        keys_unique(s.push((k, v))),
        table_view(s.push((k, v))) == table_view(s).insert(k, v),
{
    let s2 = s.push((k, v));
    assert forall|i: int, j: int| 0 <= i < s2.len() && 0 <= j < s2.len() && s2[i].0 == s2[j].0 implies i == j by {
        if i < s.len() && j == s.len() {
            assert(s[i].0 == k);
        } else if j < s.len() && i == s.len() {
            assert(s[j].0 == k);
        }
    }
    assert forall|x: K| has_key(s2, x) <==> (has_key(s, x) || x == k) by {
        if has_key(s, x) {
            let i = choose|i: int| 0 <= i < s.len() && s[i].0 == x;
            assert(s2[i].0 == x);
        }
        if x == k {
            assert(s2[s.len() as int].0 == x);
        }
        if has_key(s2, x) && x != k {
            let i = choose|i: int| 0 <= i < s2.len() && s2[i].0 == x;
            assert(s[i].0 == x);
        }
    }
    assert forall|x: K| #[trigger] has_key(s2, x) implies table_view(s2)[x] == table_view(s).insert(k, v)[x] by {
        let i = choose|i: int| 0 <= i < s2.len() && s2[i].0 == x;
        if x == k {
            assert(i == s.len());
        } else {
            let w = choose|w: int| 0 <= w < s.len() && s[w].0 == x;
            assert(s2[w].0 == x);
        }
    }
    assert(table_view(s2) =~= table_view(s).insert(k, v));
}

pub proof fn lemma_view_remove<K, V>(s: Seq<(K, V)>, i: int)
    requires
        keys_unique(s),
        0 <= i < s.len(),
    ensures
        keys_unique(s.remove(i)),
        table_view(s.remove(i)) == table_view(s).remove(s[i].0),
{
    let s2 = s.remove(i);
    assert forall|a: int, b: int| 0 <= a < s2.len() && 0 <= b < s2.len() && s2[a].0 == s2[b].0 implies a == b by {
        let aa = if a < i { a } else { a + 1 };
        let bb = if b < i { b } else { b + 1 };
        assert(s2[a] == s[aa]);
        assert(s2[b] == s[bb]);
    }
    assert forall|x: K| has_key(s2, x) <==> (has_key(s, x) && x != s[i].0) by {
        if has_key(s2, x) {
            let a = choose|a: int| 0 <= a < s2.len() && s2[a].0 == x;
            let aa = if a < i { a } else { a + 1 };
            assert(s[aa].0 == x);
        }
        if has_key(s, x) && x != s[i].0 {
            let a = choose|a: int| 0 <= a < s.len() && s[a].0 == x;
            assert(a != i);
            let a2 = if a < i { a } else { a - 1 };
            assert(s2[a2].0 == x);
        }
    }
    assert forall|x: K| #[trigger] has_key(s2, x) implies table_view(s2)[x] == table_view(s)[x] by {
        let a = choose|a: int| 0 <= a < s2.len() && s2[a].0 == x;
        let aa = if a < i { a } else { a + 1 };
        let w = choose|w: int| 0 <= w < s.len() && s[w].0 == x;
        assert(s[aa].0 == x);
        assert(w == aa);
    }
    assert(table_view(s2) =~= table_view(s).remove(s[i].0));
}

pub proof fn lemma_view_update<K, V>(s: Seq<(K, V)>, i: int, v: V)
    requires
        keys_unique(s),
        0 <= i < s.len(),
    ensures
        keys_unique(s.update(i, (s[i].0, v))),
        table_view(s.update(i, (s[i].0, v))) == table_view(s).insert(s[i].0, v),
{
    let k = s[i].0;
    let s2 = s.update(i, (k, v));
    assert forall|x: K| has_key(s2, x) <==> has_key(s, x) by {
        if has_key(s2, x) {
            let a = choose|a: int| 0 <= a < s2.len() && s2[a].0 == x;
            assert(s[a].0 == x);
        }
        if has_key(s, x) {
            let a = choose|a: int| 0 <= a < s.len() && s[a].0 == x;
            assert(s2[a].0 == x);
        }
    }
    assert forall|x: K| #[trigger] has_key(s2, x) implies table_view(s2)[x] == table_view(s).insert(k, v)[x] by {
        let a = choose|a: int| 0 <= a < s2.len() && s2[a].0 == x;
        if x == k {
            assert(a == i);
        } else {
            let w = choose|w: int| 0 <= w < s.len() && s[w].0 == x;
            assert(s2[w].0 == x);
        }
    }
    assert(table_view(s2) =~= table_view(s).insert(k, v));
}

pub proof fn lemma_view_insert_at<K, V>(s: Seq<(K, V)>, i: int, k: K, v: V)
    requires
        keys_unique(s),
        !has_key(s, k),
        0 <= i <= s.len(),
    ensures
        keys_unique(s.insert(i, (k, v))),
        table_view(s.insert(i, (k, v))) == table_view(s).insert(k, v),
{
    let s2 = s.insert(i, (k, v));
    assert forall|a: int, b: int| 0 <= a < s2.len() && 0 <= b < s2.len() && s2[a].0 == s2[b].0 implies a == b by {
        if a != i && b != i {
            let aa = if a < i { a } else { a - 1 };
            let bb = if b < i { b } else { b - 1 };
            assert(s2[a] == s[aa]);
            assert(s2[b] == s[bb]);
        } else if a == i && b != i {
            let bb = if b < i { b } else { b - 1 };
            assert(s[bb].0 == k);
        } else if b == i && a != i {
            let aa = if a < i { a } else { a - 1 };
            assert(s[aa].0 == k);
        }
    }
    assert forall|x: K| has_key(s2, x) <==> (has_key(s, x) || x == k) by {
        if has_key(s, x) {
            let a = choose|a: int| 0 <= a < s.len() && s[a].0 == x;
            let a2 = if a < i { a } else { a + 1 };
            assert(s2[a2].0 == x);
        }
        if x == k {
            assert(s2[i].0 == x);
        }
        if has_key(s2, x) && x != k {
            let a = choose|a: int| 0 <= a < s2.len() && s2[a].0 == x;
            assert(a != i);
            let aa = if a < i { a } else { a - 1 };
            assert(s[aa].0 == x);
        }
    }
    assert forall|x: K| #[trigger] has_key(s2, x) implies table_view(s2)[x] == table_view(s).insert(k, v)[x] by {
        let a = choose|a: int| 0 <= a < s2.len() && s2[a].0 == x;
        if x == k {
            assert(a == i);
        } else {
            let w = choose|w: int| 0 <= w < s.len() && s[w].0 == x;
            let w2 = if w < i { w } else { w + 1 };
            assert(s2[w2].0 == x);
            assert(a == w2);
        }
    }
    assert(table_view(s2) =~= table_view(s).insert(k, v));
}

/// The domain of the view is finite and has as many keys as there are entries.
pub proof fn lemma_view_len<K, V>(s: Seq<(K, V)>)
    requires
        keys_unique(s),
    ensures
        table_view(s).dom().finite(),
        table_view(s).dom().len() == s.len(),
    decreases s.len(),
{
    if s.len() == 0 {
        assert(table_view(s).dom() =~= Set::<K>::empty());
    } else {
        let t = s.drop_last();
        let e = s.last();
        assert(keys_unique(t)) by {
            assert forall|i: int, j: int| 0 <= i < t.len() && 0 <= j < t.len() && t[i].0 == t[j].0 implies i == j by {
                assert(s[i] == t[i] && s[j] == t[j]);
            }
        }
        assert(!has_key(t, e.0)) by {
            if has_key(t, e.0) {
                let i = choose|i: int| 0 <= i < t.len() && t[i].0 == e.0;
                assert(s[i].0 == s[s.len() - 1].0);
            }
        }
        lemma_view_len(t);
        lemma_view_push(t, e.0, e.1);
        assert(t.push(e) =~= s);
    }
}

/// Counting entries whose value satisfies `p` counts the keys of the view
/// whose value satisfies `p`.
pub proof fn lemma_count_where<K, V>(s: Seq<(K, V)>, p: spec_fn(V) -> bool)
    requires
        keys_unique(s),
    ensures
        table_view(s).dom().finite(),
        count_where(s, p) == map_count_where(table_view(s), p),
    decreases s.len(),
{
    lemma_view_len(s);
    let m = table_view(s);
    if s.len() == 0 {
        assert(m.dom().filter(|k: K| p(m[k])) =~= Set::<K>::empty());
    } else {
        let t = s.drop_last();
        let e = s.last();
        assert(keys_unique(t)) by {
            assert forall|i: int, j: int| 0 <= i < t.len() && 0 <= j < t.len() && t[i].0 == t[j].0 implies i == j by {
                assert(s[i] == t[i] && s[j] == t[j]);
            }
        }
        assert(!has_key(t, e.0)) by {
            if has_key(t, e.0) {
                let i = choose|i: int| 0 <= i < t.len() && t[i].0 == e.0;
                assert(s[i].0 == s[s.len() - 1].0);
            }
        }
        lemma_count_where(t, p);
        lemma_view_push(t, e.0, e.1);
        assert(t.push(e) =~= s);
        let mt = table_view(t);
        assert(m == mt.insert(e.0, e.1));
        let ft = mt.dom().filter(|k: K| p(mt[k]));
        let fs = m.dom().filter(|k: K| p(m[k]));
        mt.dom().lemma_len_filter(|k: K| p(mt[k]));
        assert(!ft.contains(e.0));
        if p(e.1) {
            assert(fs =~= ft.insert(e.0));
        } else {
            assert(fs =~= ft);
        }
    }
}

/// A table from keys to values: a vector of entries with distinct keys, in
/// the order in which the keys were first inserted.
///
/// It stands where a hash map would. The library walks its tables (to list,
/// count and pick entries, and to remove those that fail a test), and its
/// contracts state what such walks give. A `HashMap` is walked in an order
/// that a per-process hasher seed decides, and vstd specifies that order as
/// some order of the entries only; it specifies neither `retain` nor
/// `iter_mut`. Kept in insertion order, each walk is a function of the calls
/// that built the table.
#[verifier::reject_recursive_types(K)]
pub struct Table<K, V> {
    entries: Vec<(K, V)>,
}

impl<K: TableKey, V> Table<K, V> {
    /// The keys are pairwise distinct.
    pub closed spec fn wf(&self) -> bool {
        keys_unique(self.entries@)
    }

    /// The entries, in iteration order.
    pub closed spec fn entries(&self) -> Seq<(K, V)> {
        self.entries@
    }

    /// The map that the table stands for.
    pub open spec fn view(&self) -> Map<K, V> {
        table_view(self.entries())
    }

    pub proof fn lemma_wf(&self)
        requires
            self.wf(),
        ensures
            keys_unique(self.entries()),
            self.view().dom().finite(),
            self.view().dom().len() == self.entries().len(),
    {
        lemma_view_len(self.entries@);
    }

    /// An empty table.
    pub fn new() -> (r: Self)
        ensures
            r.wf(),
            r.entries() == Seq::<(K, V)>::empty(),
            r.view() == Map::<K, V>::empty(),
    {
        let r = Table { entries: Vec::new() };
        assert(r.view() =~= Map::<K, V>::empty());
        r
    }

    /// The number of keys.
    pub fn len(&self) -> (r: usize)
        requires
            self.wf(),
        ensures
            r == self.entries().len(),
            r == self.view().dom().len(),
    {
        proof { lemma_view_len(self.entries@); }
        self.entries.len()
    }

    /// The position of `k` among the entries, if present.
    pub fn find(&self, k: &K) -> (r: Option<usize>)
        requires
            self.wf(),
        ensures
            match r {
                Some(i) => i < self.entries().len() && self.entries()[i as int].0 == *k
                    && self.view().contains_key(*k) && self.view()[*k] == self.entries()[i as int].1,
                None => !self.view().contains_key(*k),
            },
    {
        let mut i: usize = 0;
        while i < self.entries.len()
            invariant
                keys_unique(self.entries@),
                i <= self.entries@.len(),
                forall|j: int| 0 <= j < i ==> self.entries@[j].0 != *k,
            decreases self.entries.len() - i,
        {
            if self.entries[i].0.same_key(k) {
                proof { lemma_entry_in_view(self.entries@, i as int); }
                return Some(i);
            }
            i = i + 1;
        }
        proof {
            if has_key(self.entries@, *k) {
                let j = choose|j: int| 0 <= j < self.entries@.len() && self.entries@[j].0 == *k;
                assert(self.entries@[j].0 == *k);
            }
        }
        None
    }

    /// Whether `k` is present.
    pub fn contains_key(&self, k: &K) -> (r: bool)
        requires
            self.wf(),
        ensures
            r == self.view().contains_key(*k),
    {
        self.find(k).is_some()
    }

    /// The value at `k`, if present.
    pub fn get(&self, k: &K) -> (r: Option<&V>)
        requires
            self.wf(),
        ensures
            match r {
                Some(v) => self.view().contains_key(*k) && *v == self.view()[*k],
                None => !self.view().contains_key(*k),
            },
    {
        match self.find(k) {
            Some(i) => Some(&self.entries[i].1),
            None => None,
        }
    }

    /// The key of the entry at position `i`.
    pub fn key_at(&self, i: usize) -> (r: K)
        requires
            self.wf(),
            i < self.entries().len(),
        ensures
            r == self.entries()[i as int].0,
            self.view().contains_key(r),
            self.view()[r] == self.entries()[i as int].1,
    {
        proof { lemma_entry_in_view(self.entries@, i as int); }
        self.entries[i].0
    }

    /// The value of the entry at position `i`.
    pub fn value_at(&self, i: usize) -> (r: &V)
        requires
            self.wf(),
            i < self.entries().len(),
        ensures
            *r == self.entries()[i as int].1,
            self.view().contains_key(self.entries()[i as int].0),
            self.view()[self.entries()[i as int].0] == *r,
    {
        proof { lemma_entry_in_view(self.entries@, i as int); }
        &self.entries[i].1
    }

    /// Replace the value of the entry at position `i`.
    pub fn set_value_at(&mut self, i: usize, v: V)
        requires
            old(self).wf(),
            i < old(self).entries().len(),
        ensures
            final(self).wf(),
            final(self).entries() == old(self).entries().update(i as int, (old(self).entries()[i as int].0, v)),
            final(self).view() == old(self).view().insert(old(self).entries()[i as int].0, v),
    {
        proof { lemma_view_update(self.entries@, i as int, v); }
        let k = self.entries[i].0;
        self.entries.set(i, (k, v));
    }

    /// Insert or replace the value at `k`. A new key goes after the others.
    pub fn insert(&mut self, k: K, v: V)
        requires
            old(self).wf(),
        ensures
            final(self).wf(),
            final(self).view() == old(self).view().insert(k, v),
            old(self).view().contains_key(k) ==> final(self).entries().len() == old(self).entries().len(),
            !old(self).view().contains_key(k) ==> final(self).entries() == old(self).entries().push((k, v)),
    {
        match self.find(&k) {
            Some(i) => {
                self.set_value_at(i, v);
            },
            None => {
                proof {
                    if has_key(self.entries@, k) {
                        let j = choose|j: int| 0 <= j < self.entries@.len() && self.entries@[j].0 == k;
                        lemma_entry_in_view(self.entries@, j);
                    }
                    lemma_view_push(self.entries@, k, v);
                }
                self.entries.push((k, v));
            },
        }
    }

    /// Remove `k`, handing back its value if it was present.
    pub fn remove(&mut self, k: &K) -> (r: Option<V>)
        requires
            old(self).wf(),
        ensures
            final(self).wf(),
            final(self).view() == old(self).view().remove(*k),
            match r {
                Some(v) => old(self).view().contains_key(*k) && v == old(self).view()[*k],
                None => !old(self).view().contains_key(*k) && final(self).entries() == old(self).entries(),
            },
    {
        match self.find(k) {
            Some(i) => {
                proof { lemma_view_remove(self.entries@, i as int); }
                let (_, v) = self.entries.remove(i);
                Some(v)
            },
            None => {
                assert(old(self).view().remove(*k) =~= old(self).view());
                None
            },
        }
    }

    /// Remove every entry.
    pub fn clear(&mut self)
        ensures
            final(self).wf(),
            final(self).view() == Map::<K, V>::empty(),
            final(self).entries() == Seq::<(K, V)>::empty(),
    {
        self.entries = Vec::new();
        assert(self.view() =~= Map::<K, V>::empty());
    }
}

} // verus!
