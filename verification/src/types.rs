//! Identifiers of entities and edges, property values and property maps.

use vstd::prelude::*;
use crate::text::str_equal;

verus! {

/// Unique identifier for entities (nodes).
#[derive(Debug, Clone, Copy, PartialEq, Eq, Hash)]
pub struct EntityId(pub u64);

impl EntityId {
    pub fn new(id: u64) -> (r: Self)
        ensures
            r.0 == id,
    {
        EntityId(id)
    }

    pub fn as_u64(&self) -> (r: u64)
        ensures
            r == self.0,
    {
        self.0
    }
}

/// Unique identifier for edges (relationships).
#[derive(Debug, Clone, Copy, PartialEq, Eq, Hash)]
pub struct EdgeId(pub u64);

impl EdgeId {
    pub fn new(id: u64) -> (r: Self)
        ensures
            r.0 == id,
    {
        EdgeId(id)
    }

    pub fn as_u64(&self) -> (r: u64)
        ensures
            r == self.0,
    {
        self.0
    }
}

/// Property values (heterogeneous types). A floating-point value is held
/// by its IEEE-754 bits (`f64::to_bits`).
#[derive(Debug, Clone, PartialEq)]
pub enum PropertyValue {
    Null,
    Bool(bool),
    Int(i64),
    Float(u64),
    String(String),
    Bytes(Vec<u8>),
}

/// A property value with its text as characters and its bytes as a
/// sequence.
pub enum ValueView {
    Null,
    Bool(bool),
    Int(i64),
    Float(u64),
    String(Seq<char>),
    Bytes(Seq<u8>),
}

impl View for PropertyValue {
    type V = ValueView;

    open spec fn view(&self) -> ValueView {
        match self {
            PropertyValue::Null => ValueView::Null,
            PropertyValue::Bool(b) => ValueView::Bool(*b),
            PropertyValue::Int(n) => ValueView::Int(*n),
            PropertyValue::Float(f) => ValueView::Float(*f),
            PropertyValue::String(s) => ValueView::String(s@),
            PropertyValue::Bytes(b) => ValueView::Bytes(b@),
        }
    }
}

impl PropertyValue {
    pub fn as_i64(&self) -> (r: Option<i64>)
        ensures
            r == match self@ {
                ValueView::Int(n) => Some(n),
                _ => None,
            },
    {
        match self {
            PropertyValue::Int(v) => Some(*v),
            _ => None,
        }
    }

    pub fn as_str(&self) -> (r: Option<&str>)
        ensures
            match self@ {
                ValueView::String(s) => r matches Some(x) && x@ == s,
                _ => r is None,
            },
    {
        match self {
            PropertyValue::String(s) => Some(s.as_str()),
            _ => None,
        }
    }
}

/// A copy of a property value.
pub fn copy_value(v: &PropertyValue) -> (r: PropertyValue)
    ensures
        r@ == v@,
{
    match v {
        PropertyValue::Null => PropertyValue::Null,
        PropertyValue::Bool(b) => PropertyValue::Bool(*b),
        PropertyValue::Int(n) => PropertyValue::Int(*n),
        PropertyValue::Float(f) => PropertyValue::Float(*f),
        PropertyValue::String(s) => PropertyValue::String(s.clone()),
        PropertyValue::Bytes(b) => PropertyValue::Bytes(b.clone()),
    }
}

/// The position of the entry named `k` at or after `i`, if any.
pub open spec fn entry_pos(es: Seq<(Seq<char>, ValueView)>, k: Seq<char>, i: int) -> Option<int>
    decreases es.len() - i,
{
    if i < 0 || i >= es.len() {
        None
    } else if es[i].0 == k {
        Some(i)
    } else {
        entry_pos(es, k, i + 1)
    }
}

/// Properties map (like row columns or node attributes): each name once.
#[derive(Debug, Clone)]
pub struct Properties {
    entries: Vec<(String, PropertyValue)>,
}

impl Properties {
    /// The entries in the order their names were first set.
    pub closed spec fn entries_spec(&self) -> Seq<(Seq<char>, ValueView)> {
        Seq::new(self.entries@.len(), |i: int| (self.entries@[i].0@, self.entries@[i].1@))
    }

    /// The names are pairwise different.
    pub closed spec fn wf(&self) -> bool {
        forall|a: int, b: int|
            0 <= a < b < self.entries@.len() ==> self.entries@[a].0@ != self.entries@[b].0@
    }

    /// The value of `k`, if set.
    pub open spec fn value_of(&self, k: Seq<char>) -> Option<ValueView> {
        match entry_pos(self.entries_spec(), k, 0) {
            Some(i) => Some(self.entries_spec()[i].1),
            None => None,
        }
    }

    /// The set names, as a set.
    pub open spec fn has(&self, k: Seq<char>) -> bool {
        entry_pos(self.entries_spec(), k, 0) is Some
    }

    pub fn new() -> (r: Self)
        ensures
            r.wf(),
            r.entries_spec() == Seq::<(Seq<char>, ValueView)>::empty(),
    {
        let r = Properties { entries: Vec::new() };
        assert(r.entries_spec() =~= Seq::empty());
        r
    }

    /// The entries.
    pub fn entries(&self) -> (r: &Vec<(String, PropertyValue)>)
        ensures
            Seq::new(r@.len(), |i: int| (r@[i].0@, r@[i].1@)) == self.entries_spec(),
    {
        &self.entries
    }

    pub fn len(&self) -> (r: usize)
        ensures
            r == self.entries_spec().len(),
    {
        self.entries.len()
    }

    /// A copy with the same entries.
    pub fn copy(&self) -> (r: Self)
        ensures
            r.entries_spec() == self.entries_spec(),
            r.wf() == self.wf(),
    {
        let mut entries: Vec<(String, PropertyValue)> = Vec::new();
        let mut i: usize = 0;
        while i < self.entries.len()
            invariant
                i <= self.entries.len(),
                entries@.len() == i,
                forall|j: int|
                    0 <= j < i ==> #[trigger] entries@[j].0@ == self.entries@[j].0@ && entries@[j].1@
                        == self.entries@[j].1@,
            decreases self.entries.len() - i,
        {
            entries.push((self.entries[i].0.clone(), copy_value(&self.entries[i].1)));
            i = i + 1;
        }
        let r = Properties { entries };
        assert(r.entries_spec() =~= self.entries_spec());
        assert(r.wf() == self.wf()) by {
            if r.wf() {
                assert forall|a: int, b: int| 0 <= a < b < self.entries@.len() implies self.entries@[a].0@
                    != self.entries@[b].0@ by {
                    assert(r.entries@[a].0@ == self.entries@[a].0@);
                    assert(r.entries@[b].0@ == self.entries@[b].0@);
                }
            }
            if self.wf() {
                assert forall|a: int, b: int| 0 <= a < b < r.entries@.len() implies r.entries@[a].0@
                    != r.entries@[b].0@ by {
                    assert(r.entries@[a].0@ == self.entries@[a].0@);
                    assert(r.entries@[b].0@ == self.entries@[b].0@);
                }
            }
        }
        r
    }

    /// Where `key` stands, if it is set.
    fn position(&self, key: &str) -> (r: Option<usize>)
        ensures
            match r {
                Some(i) => entry_pos(self.entries_spec(), key@, 0) == Some(i as int),
                None => entry_pos(self.entries_spec(), key@, 0) is None,
            },
    {
        let ghost es = self.entries_spec();
        let mut i: usize = 0;
        while i < self.entries.len()
            invariant
                es == self.entries_spec(),
                i <= self.entries.len(),
                entry_pos(es, key@, 0) == entry_pos(es, key@, i as int),
            decreases self.entries.len() - i,
        {
            if str_equal(self.entries[i].0.as_str(), key) {
                assert(es[i as int].0 == key@);
                return Some(i);
            }
            i = i + 1;
        }
        None
    }

    pub fn contains_key(&self, key: &str) -> (r: bool)
        ensures
            r == self.has(key@),
    {
        self.position(key).is_some()
    }

    pub fn get(&self, key: &str) -> (r: Option<&PropertyValue>)
        ensures
            match self.value_of(key@) {
                Some(v) => r matches Some(x) && x@ == v,
                None => r is None,
            },
    {
        proof {
            lemma_entry_pos(self.entries_spec(), key@, 0);
        }
        match self.position(key) {
            Some(i) => Some(&self.entries[i].1),
            None => None,
        }
    }

    /// Set `key` to `value`: in place where the name is set, at the end
    /// where it is not.
    pub fn insert(&mut self, key: String, value: PropertyValue)
        requires
            old(self).wf(),
        ensures
            final(self).wf(),
            final(self).entries_spec() == match entry_pos(old(self).entries_spec(), key@, 0) {
                Some(i) => old(self).entries_spec().update(i, (key@, value@)),
                None => old(self).entries_spec().push((key@, value@)),
            },
    {
        let ghost es = self.entries_spec();
        let ghost kv = key@;
        let ghost vv = value@;
        proof {
            lemma_entry_pos(es, kv, 0);
        }
        match self.position(key.as_str()) {
            Some(i) => {
                assert(es[i as int].0 == kv);
                let ghost old_entries = self.entries@;
                self.entries.set(i, (key, value));
                assert(self.entries_spec() =~= es.update(i as int, (kv, vv)));
                assert forall|a: int| 0 <= a < self.entries@.len() implies #[trigger] self.entries@[a].0@
                    == old_entries[a].0@ by {
                    if a == i {
                        assert(self.entries_spec()[a].0 == kv);
                        assert(es[a].0 == old_entries[a].0@);
                    }
                }
            },
            None => {
                let ghost old_entries = self.entries@;
                self.entries.push((key, value));
                assert(self.entries_spec() =~= es.push((kv, vv)));
                assert forall|a: int| 0 <= a < old_entries.len() implies #[trigger] old_entries[a].0@ != kv by {
                    assert(es[a].0 == old_entries[a].0@);
                }
            },
        }
    }
}

/// Where a name stands, it stands there and nowhere before.
pub proof fn lemma_entry_pos(es: Seq<(Seq<char>, ValueView)>, k: Seq<char>, i: int)
    requires
        0 <= i <= es.len(),
    ensures
        match entry_pos(es, k, i) {
            Some(j) => i <= j < es.len() && es[j].0 == k && forall|m: int| i <= m < j ==> es[m].0 != k,
            None => forall|m: int| i <= m < es.len() ==> es[m].0 != k,
        },
    decreases es.len() - i,
{
    if i < es.len() && es[i].0 != k {
        lemma_entry_pos(es, k, i + 1);
    }
}

} // verus!
