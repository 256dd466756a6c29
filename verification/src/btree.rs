//! Ordered indexes over one field of a collection: from each key value to
//! the entities that have it, with exact lookups, range scans and
//! comparisons, and the manager of a database's indexes.
//!
//! An index keeps its keys in strictly increasing order in a vector. Keys
//! of different kinds order as null, booleans, integers, floats, texts,
//! byte strings; floats by their numeric value, with `-0.0` taken as
//! `0.0` and NaNs beyond the infinities; texts and byte strings
//! lexicographically.

use vstd::prelude::*;
use vstd::string::StringExecFns;
use crate::types::{EntityId, PropertyValue, Properties, ValueView};
use crate::text::{
    byte_list, byte_list_text, chars_of, concat2, concat3, debug_str, debug_str_text, decimal, hex, i64_text,
    signed_decimal, str_equal, u64_hex_text, u64_to_string,
};

verus! {

// ---------------------------------------------------------------------
// Keys and their order
// ---------------------------------------------------------------------

/// An index key: a property value as the index orders it. A float is held
/// by its bits, `-0.0` as `0.0`.
#[derive(Debug)]
pub enum IndexKey {
    Null,
    Bool(bool),
    Int(i64),
    Float(u64),
    String(String),
    Bytes(Vec<u8>),
}

/// A key with its text as characters and its bytes as a sequence.
pub enum KeyView {
    Null,
    Bool(bool),
    Int(i64),
    Float(u64),
    String(Seq<char>),
    Bytes(Seq<u8>),
}

impl View for IndexKey {
    type V = KeyView;

    open spec fn view(&self) -> KeyView {
        match self {
            IndexKey::Null => KeyView::Null,
            IndexKey::Bool(b) => KeyView::Bool(*b),
            IndexKey::Int(n) => KeyView::Int(*n),
            IndexKey::Float(f) => KeyView::Float(*f),
            IndexKey::String(s) => KeyView::String(s@),
            IndexKey::Bytes(b) => KeyView::Bytes(b@),
        }
    }
}

/// The bits of `-0.0`.
pub const NEGATIVE_ZERO_BITS: u64 = 0x8000_0000_0000_0000;

/// The key of a property value.
pub open spec fn key_of(v: ValueView) -> KeyView {
    match v {
        ValueView::Null => KeyView::Null,
        ValueView::Bool(b) => KeyView::Bool(b),
        ValueView::Int(n) => KeyView::Int(n),
        ValueView::Float(f) => KeyView::Float(if f == NEGATIVE_ZERO_BITS { 0 } else { f }),
        ValueView::String(s) => KeyView::String(s),
        ValueView::Bytes(b) => KeyView::Bytes(b),
    }
}

impl IndexKey {
    /// The key of a property value.
    pub fn from_value(value: &PropertyValue) -> (r: Self)
        ensures
            r@ == key_of(value@),
    {
        match value {
            PropertyValue::Null => IndexKey::Null,
            PropertyValue::Bool(b) => IndexKey::Bool(*b),
            PropertyValue::Int(n) => IndexKey::Int(*n),
            PropertyValue::Float(f) => IndexKey::Float(if *f == NEGATIVE_ZERO_BITS { 0 } else { *f }),
            PropertyValue::String(s) => IndexKey::String(s.clone()),
            PropertyValue::Bytes(b) => IndexKey::Bytes(b.clone()),
        }
    }
}

/// The place of a key's kind in the order.
pub open spec fn kind_rank(k: KeyView) -> int {
    match k {
        KeyView::Null => 0,
        KeyView::Bool(_) => 1,
        KeyView::Int(_) => 2,
        KeyView::Float(_) => 3,
        KeyView::String(_) => 4,
        KeyView::Bytes(_) => 5,
    }
}

/// A float's bits as a number that orders as the floats do: negative
/// floats below positive ones, larger magnitudes further out.
pub open spec fn float_rank(bits: u64) -> int {
    if bits >= NEGATIVE_ZERO_BITS {
        NEGATIVE_ZERO_BITS - 1 - (bits - NEGATIVE_ZERO_BITS)
    } else {
        NEGATIVE_ZERO_BITS + bits
    }
}

/// Lexicographic order of character sequences, by code point (the order
/// of their UTF-8 bytes).
pub open spec fn chars_lt(a: Seq<char>, b: Seq<char>) -> bool
    decreases a.len(),
{
    if a.len() == 0 {
        b.len() > 0
    } else if b.len() == 0 {
        false
    } else if a[0] != b[0] {
        (a[0] as int) < (b[0] as int)
    } else {
        chars_lt(a.drop_first(), b.drop_first())
    }
}

/// Lexicographic order of byte sequences.
pub open spec fn bytes_lt(a: Seq<u8>, b: Seq<u8>) -> bool
    decreases a.len(),
{
    if a.len() == 0 {
        b.len() > 0
    } else if b.len() == 0 {
        false
    } else if a[0] != b[0] {
        a[0] < b[0]
    } else {
        bytes_lt(a.drop_first(), b.drop_first())
    }
}

/// The order of keys.
pub open spec fn key_lt(a: KeyView, b: KeyView) -> bool {
    if kind_rank(a) != kind_rank(b) {
        kind_rank(a) < kind_rank(b)
    } else {
        match (a, b) {
            (KeyView::Bool(x), KeyView::Bool(y)) => !x && y,
            (KeyView::Int(x), KeyView::Int(y)) => x < y,
            (KeyView::Float(x), KeyView::Float(y)) => float_rank(x) < float_rank(y),
            (KeyView::String(x), KeyView::String(y)) => chars_lt(x, y),
            (KeyView::Bytes(x), KeyView::Bytes(y)) => bytes_lt(x, y),
            _ => false,
        }
    }
}

/// The character order is a strict total order.
pub proof fn lemma_chars_lt(a: Seq<char>, b: Seq<char>, c: Seq<char>)
    ensures
        !chars_lt(a, a),
        a != b ==> chars_lt(a, b) || chars_lt(b, a),
        chars_lt(a, b) ==> !chars_lt(b, a),
        chars_lt(a, b) && chars_lt(b, c) ==> chars_lt(a, c),
    decreases a.len(),
{
    if a.len() > 0 {
        let a1 = a.drop_first();
        let b1 = if b.len() > 0 { b.drop_first() } else { b };
        let c1 = if c.len() > 0 { c.drop_first() } else { c };
        lemma_chars_lt(a1, a1, a1);
        lemma_chars_lt(a1, b1, c1);
        if b.len() > 0 && a[0] != b[0] {
            assert((a[0] as int) != (b[0] as int));
        }
        if b.len() > 0 && a != b && a[0] == b[0] {
            assert(a1 != b1) by {
                if a1 == b1 {
                    assert(a =~= seq![a[0]] + a1);
                    assert(b =~= seq![b[0]] + b1);
                }
            }
        }
        if b.len() > 0 && c.len() > 0 && a[0] == b[0] && b[0] == c[0] {
            lemma_chars_lt(a1, b1, c1);
        }
    } else if b.len() == 0 {
        assert(a =~= b);
    }
}

/// The byte order is a strict total order.
pub proof fn lemma_bytes_lt(a: Seq<u8>, b: Seq<u8>, c: Seq<u8>)
    ensures
        !bytes_lt(a, a),
        a != b ==> bytes_lt(a, b) || bytes_lt(b, a),
        bytes_lt(a, b) ==> !bytes_lt(b, a),
        bytes_lt(a, b) && bytes_lt(b, c) ==> bytes_lt(a, c),
    decreases a.len(),
{
    if a.len() > 0 {
        let a1 = a.drop_first();
        let b1 = if b.len() > 0 { b.drop_first() } else { b };
        let c1 = if c.len() > 0 { c.drop_first() } else { c };
        lemma_bytes_lt(a1, a1, a1);
        lemma_bytes_lt(a1, b1, c1);
        if b.len() > 0 && a != b && a[0] == b[0] {
            assert(a1 != b1) by {
                if a1 == b1 {
                    assert(a =~= seq![a[0]] + a1);
                    assert(b =~= seq![b[0]] + b1);
                }
            }
        }
        if b.len() > 0 && c.len() > 0 && a[0] == b[0] && b[0] == c[0] {
            lemma_bytes_lt(a1, b1, c1);
        }
    } else if b.len() == 0 {
        assert(a =~= b);
    }
}

/// The key order is a strict total order.
pub proof fn lemma_key_lt(a: KeyView, b: KeyView, c: KeyView)
    ensures
        !key_lt(a, a),
        a != b ==> key_lt(a, b) || key_lt(b, a),
        key_lt(a, b) ==> !key_lt(b, a),
        key_lt(a, b) && key_lt(b, c) ==> key_lt(a, c),
{
    match (a, b, c) {
        (KeyView::String(x), KeyView::String(y), KeyView::String(z)) => lemma_chars_lt(x, y, z),
        (KeyView::Bytes(x), KeyView::Bytes(y), KeyView::Bytes(z)) => lemma_bytes_lt(x, y, z),
        (KeyView::String(x), KeyView::String(y), _) => lemma_chars_lt(x, y, y),
        (KeyView::Bytes(x), KeyView::Bytes(y), _) => lemma_bytes_lt(x, y, y),
        (KeyView::String(x), _, _) => lemma_chars_lt(x, x, x),
        (KeyView::Bytes(x), _, _) => lemma_bytes_lt(x, x, x),
        _ => {},
    }
}

fn float_rank_exec(bits: u64) -> (r: u64)
    ensures
        r as int == float_rank(bits),
{
    if bits >= NEGATIVE_ZERO_BITS {
        (NEGATIVE_ZERO_BITS - 1) - (bits - NEGATIVE_ZERO_BITS)
    } else {
        NEGATIVE_ZERO_BITS + bits
    }
}

/// Whether `a` comes before `b` in the order of `chars_lt`.
pub fn chars_less(a: &Vec<char>, b: &Vec<char>) -> (r: bool)
    ensures
        r == chars_lt(a@, b@),
{
    let mut i: usize = 0;
    assert(a@.skip(0) =~= a@);
    assert(b@.skip(0) =~= b@);
    while i < a.len() && i < b.len()
        invariant
            i <= a.len(),
            i <= b.len(),
            chars_lt(a@, b@) == chars_lt(a@.skip(i as int), b@.skip(i as int)),
        decreases a.len() - i,
    {
        let x = a[i];
        let y = b[i];
        proof {
            assert(a@.skip(i as int)[0] == x);
            assert(b@.skip(i as int)[0] == y);
            assert(a@.skip(i as int).drop_first() =~= a@.skip(i + 1));
            assert(b@.skip(i as int).drop_first() =~= b@.skip(i + 1));
        }
        if x != y {
            return x < y;
        }
        i = i + 1;
    }
    proof {
        if i == a.len() {
            assert(a@.skip(i as int).len() == 0);
        } else {
            assert(b@.skip(i as int).len() == 0);
        }
    }
    i == a.len() && i < b.len()
}

fn bytes_less(a: &Vec<u8>, b: &Vec<u8>) -> (r: bool)
    ensures
        r == bytes_lt(a@, b@),
{
    let mut i: usize = 0;
    assert(a@.skip(0) =~= a@);
    assert(b@.skip(0) =~= b@);
    while i < a.len() && i < b.len()
        invariant
            i <= a.len(),
            i <= b.len(),
            bytes_lt(a@, b@) == bytes_lt(a@.skip(i as int), b@.skip(i as int)),
        decreases a.len() - i,
    {
        let x = a[i];
        let y = b[i];
        proof {
            assert(a@.skip(i as int)[0] == x);
            assert(b@.skip(i as int)[0] == y);
            assert(a@.skip(i as int).drop_first() =~= a@.skip(i + 1));
            assert(b@.skip(i as int).drop_first() =~= b@.skip(i + 1));
        }
        if x != y {
            return x < y;
        }
        i = i + 1;
    }
    proof {
        if i == a.len() {
            assert(a@.skip(i as int).len() == 0);
        } else {
            assert(b@.skip(i as int).len() == 0);
        }
    }
    i == a.len() && i < b.len()
}

fn kind_rank_exec(k: &IndexKey) -> (r: u8)
    ensures
        r as int == kind_rank(k@),
{
    match k {
        IndexKey::Null => 0,
        IndexKey::Bool(_) => 1,
        IndexKey::Int(_) => 2,
        IndexKey::Float(_) => 3,
        IndexKey::String(_) => 4,
        IndexKey::Bytes(_) => 5,
    }
}

/// Whether `a` orders before `b`.
pub fn key_less(a: &IndexKey, b: &IndexKey) -> (r: bool)
    ensures
        r == key_lt(a@, b@),
{
    let ra = kind_rank_exec(a);
    let rb = kind_rank_exec(b);
    if ra != rb {
        return ra < rb;
    }
    match (a, b) {
        (IndexKey::Bool(x), IndexKey::Bool(y)) => !*x && *y,
        (IndexKey::Int(x), IndexKey::Int(y)) => *x < *y,
        (IndexKey::Float(x), IndexKey::Float(y)) => float_rank_exec(*x) < float_rank_exec(*y),
        (IndexKey::String(x), IndexKey::String(y)) => chars_less(&chars_of(x.as_str()), &chars_of(y.as_str())),
        (IndexKey::Bytes(x), IndexKey::Bytes(y)) => bytes_less(x, y),
        _ => false,
    }
}

/// Whether two keys are the same.
pub fn key_equal(a: &IndexKey, b: &IndexKey) -> (r: bool)
    ensures
        r == (a@ == b@),
{
    let lt = key_less(a, b);
    let gt = key_less(b, a);
    proof {
        lemma_key_lt(a@, b@, a@);
        lemma_key_lt(a@, a@, a@);
    }
    !lt && !gt
}

/// A copy of a key.
pub fn copy_key(k: &IndexKey) -> (r: IndexKey)
    ensures
        r@ == k@,
{
    match k {
        IndexKey::Null => IndexKey::Null,
        IndexKey::Bool(b) => IndexKey::Bool(*b),
        IndexKey::Int(n) => IndexKey::Int(*n),
        IndexKey::Float(f) => IndexKey::Float(*f),
        IndexKey::String(s) => IndexKey::String(s.clone()),
        IndexKey::Bytes(b) => IndexKey::Bytes(b.clone()),
    }
}

// ---------------------------------------------------------------------
// One index
// ---------------------------------------------------------------------

/// The whole number a float's bits stand for, where the float is a whole
/// number below 2^53 in magnitude: its 52-bit fraction shifted by its
/// exponent, with the implicit leading bit.
pub open spec fn float_whole(bits: u64) -> Option<u64> {
    let e = (bits >> 52u64) & 0x7ffu64;
    let m = (bits & 0xf_ffff_ffff_ffffu64) | 0x10_0000_0000_0000u64;
    if bits & 0x7fff_ffff_ffff_ffffu64 == 0 {
        Some(0u64)
    } else if 1023 <= e <= 1075 && m & (((1u64 << ((1075 - e) as u64)) - 1) as u64) == 0 {
        Some(m >> ((1075 - e) as u64))
    } else {
        None
    }
}

/// The text of a float key: a whole number below 2^53 in magnitude as
/// `f64`'s `Debug` writes it (`30.0`, `-2.0`); any other float by its bits
/// in hexadecimal, as `0x...`.
pub open spec fn float_key_text(bits: u64) -> Seq<char> {
    match float_whole(bits) {
        Some(n) => (if bits >> 63u64 == 1 { seq!['-'] } else { Seq::empty() }) + decimal(n as nat) + ".0"@,
        None => "0x"@ + hex(bits as nat),
    }
}

/// The text of a key as `Debug` writes the key, a float as a whole number
/// or by its bits (see `float_key_text`).
pub open spec fn key_debug(k: KeyView) -> Seq<char> {
    match k {
        KeyView::Null => "Null"@,
        KeyView::Bool(b) => "Bool("@ + (if b { "true"@ } else { "false"@ }) + ")"@,
        KeyView::Int(n) => "Int("@ + signed_decimal(n as int) + ")"@,
        KeyView::Float(f) => "Float(OrderedFloat("@ + float_key_text(f) + "))"@,
        KeyView::String(s) => "String("@ + debug_str(s) + ")"@,
        KeyView::Bytes(b) => "Bytes("@ + byte_list(b) + ")"@,
    }
}

fn float_whole_exec(bits: u64) -> (r: Option<u64>)
    ensures
        r == float_whole(bits),
{
    let e = (bits >> 52u64) & 0x7ffu64;
    let m = (bits & 0xf_ffff_ffff_ffffu64) | 0x10_0000_0000_0000u64;
    if bits & 0x7fff_ffff_ffff_ffffu64 == 0 {
        return Some(0);
    }
    if 1023 <= e && e <= 1075 {
        let k: u64 = 1075 - e;
        assert(1u64 << k >= 1) by (bit_vector)
            requires
                k <= 52,
        ;
        let mask: u64 = (1u64 << k) - 1;
        if m & mask == 0 {
            return Some(m >> k);
        }
    }
    None
}

fn float_key_text_exec(bits: u64) -> (r: String)
    ensures
        r@ == float_key_text(bits),
{
    match float_whole_exec(bits) {
        Some(n) => {
            let sign = if bits >> 63u64 == 1 { "-" } else { "" };
            proof {
                reveal_strlit("-");
                reveal_strlit("");
            }
            concat3(sign, u64_to_string(n).as_str(), ".0")
        },
        None => concat2("0x", u64_hex_text(bits).as_str()),
    }
}

/// The text of a key as `Debug` writes it (see `key_debug`).
fn key_text(k: &IndexKey) -> (r: String)
    ensures
        r@ == key_debug(k@),
{
    match k {
        IndexKey::Null => String::from_str("Null"),
        IndexKey::Bool(b) => concat3("Bool(", if *b { "true" } else { "false" }, ")"),
        IndexKey::Int(n) => concat3("Int(", i64_text(*n).as_str(), ")"),
        IndexKey::Float(f) => concat3("Float(OrderedFloat(", float_key_text_exec(*f).as_str(), "))"),
        IndexKey::String(s) => concat3("String(", debug_str_text(s.as_str()).as_str(), ")"),
        IndexKey::Bytes(b) => concat3("Bytes(", byte_list_text(b).as_str(), ")"),
    }
}

/// The error of a key already held by a unique index.
pub open spec fn duplicate_key_msg(k: KeyView) -> Seq<char> {
    "Unique constraint violated: duplicate key "@ + key_debug(k)
}

/// The entries of an index: each key with the IDs of its entities.
pub type Entries = Seq<(KeyView, Seq<u64>)>;

/// The keys are in strictly increasing order.
pub open spec fn sorted(t: Entries) -> bool {
    forall|i: int, j: int| 0 <= i < j < t.len() ==> key_lt(#[trigger] t[i].0, #[trigger] t[j].0)
}

/// The first place at or after `i` whose key does not order before `k`.
pub open spec fn lower(t: Entries, k: KeyView, i: int) -> int
    decreases t.len() - i,
{
    if i < 0 || i >= t.len() {
        t.len() as int
    } else if !key_lt(t[i].0, k) {
        i
    } else {
        lower(t, k, i + 1)
    }
}

/// Where `k` is, if it is a key.
pub open spec fn find(t: Entries, k: KeyView) -> Option<int> {
    let p = lower(t, k, 0);
    if p < t.len() && t[p].0 == k {
        Some(p)
    } else {
        None
    }
}

/// The IDs under `k`; none where it is no key.
pub open spec fn ids_under(t: Entries, k: KeyView) -> Seq<u64> {
    match find(t, k) {
        Some(p) => t[p].1,
        None => Seq::empty(),
    }
}

/// The entries after adding `id` under `k`: after the IDs already there,
/// or as a new key in its place.
pub open spec fn added(t: Entries, k: KeyView, id: u64) -> Entries {
    match find(t, k) {
        Some(p) => t.update(p, (k, t[p].1.push(id))),
        None => t.insert(lower(t, k, 0), (k, seq![id])),
    }
}

/// Not the ID `id`.
pub open spec fn not_id(id: u64) -> spec_fn(u64) -> bool {
    |x: u64| x != id
}

/// The entries after taking `id` from under `k`; a key left with no ID
/// goes.
pub open spec fn taken(t: Entries, k: KeyView, id: u64) -> Entries {
    match find(t, k) {
        Some(p) => {
            let rest = t[p].1.filter(not_id(id));
            if rest.len() == 0 {
                t.remove(p)
            } else {
                t.update(p, (k, rest))
            }
        },
        None => t,
    }
}

/// The IDs under the keys that `keep` holds for, key after key.
pub open spec fn gather(t: Entries, keep: spec_fn(KeyView) -> bool) -> Seq<u64>
    decreases t.len(),
{
    if t.len() == 0 {
        Seq::empty()
    } else {
        gather(t.drop_last(), keep) + if keep(t.last().0) {
            t.last().1
        } else {
            Seq::empty()
        }
    }
}

/// The number of IDs under all keys.
pub open spec fn id_count(t: Entries) -> nat
    decreases t.len(),
{
    if t.len() == 0 {
        0
    } else {
        id_count(t.drop_last()) + t.last().1.len()
    }
}

/// A count capped at the largest `usize`.
pub open spec fn capped(n: nat) -> usize {
    if n <= usize::MAX {
        n as usize
    } else {
        usize::MAX
    }
}

/// Entity IDs as their numbers.
pub open spec fn id_nums(v: Seq<EntityId>) -> Seq<u64> {
    v.map_values(|e: EntityId| e.0)
}

/// An ordered index on one field of a collection.
#[derive(Debug)]
pub struct BTreeIndex {
    /// Index name
    pub name: String,
    /// Collection name
    pub collection: String,
    /// Indexed field
    pub field: String,
    /// Keys in increasing order, each with its entities
    pub tree: Vec<(IndexKey, Vec<EntityId>)>,
    /// Whether index is unique
    pub unique: bool,
}

/// What `lower` finds in sorted entries.
pub proof fn lemma_lower(t: Entries, k: KeyView, i: int)
    requires
        sorted(t),
        0 <= i <= t.len(),
        forall|j: int| 0 <= j < i ==> key_lt(#[trigger] t[j].0, k),
    ensures
        i <= lower(t, k, i) <= t.len(),
        forall|j: int| 0 <= j < lower(t, k, i) ==> key_lt(#[trigger] t[j].0, k),
        forall|j: int| lower(t, k, i) <= j < t.len() ==> !key_lt(#[trigger] t[j].0, k),
    decreases t.len() - i,
{
    if i < t.len() {
        if key_lt(t[i].0, k) {
            lemma_lower(t, k, i + 1);
        } else {
            assert forall|j: int| i <= j < t.len() implies !key_lt(#[trigger] t[j].0, k) by {
                if j > i {
                    lemma_key_lt(t[i].0, t[j].0, k);
                    lemma_key_lt(t[j].0, k, t[i].0);
                    lemma_key_lt(k, t[i].0, t[j].0);
                    lemma_key_lt(t[i].0, k, t[j].0);
                }
            }
        }
    }
}

impl BTreeIndex {
    /// The entries, keys in order.
    pub closed spec fn entries_spec(&self) -> Entries {
        self.tree@.map_values(|e: (IndexKey, Vec<EntityId>)| (e.0@, id_nums(e.1@)))
    }

    /// The keys are in strictly increasing order.
    pub open spec fn wf(&self) -> bool {
        sorted(self.entries_spec())
    }

    /// A new empty index.
    pub fn new(name: String, collection: String, field: String, unique: bool) -> (r: Self)
        ensures
            r.wf(),
            r.name@ == name@,
            r.collection@ == collection@,
            r.field@ == field@,
            r.unique == unique,
            r.entries_spec() == Seq::<(KeyView, Seq<u64>)>::empty(),
    {
        let r = BTreeIndex { name, collection, field, tree: Vec::new(), unique };
        assert(r.entries_spec() =~= Seq::<(KeyView, Seq<u64>)>::empty());
        r
    }

    /// Where the first key not before `k` stands.
    fn lower_bound(&self, k: &IndexKey) -> (r: usize)
        requires
            self.wf(),
        ensures
            r as int == lower(self.entries_spec(), k@, 0),
            r <= self.tree@.len(),
    {
        let ghost t = self.entries_spec();
        let mut i: usize = 0;
        while i < self.tree.len()
            invariant
                t == self.entries_spec(),
                i <= self.tree.len(),
                lower(t, k@, 0) == lower(t, k@, i as int),
            decreases self.tree.len() - i,
        {
            assert(t[i as int].0 == self.tree@[i as int].0@);
            if !key_less(&self.tree[i].0, k) {
                return i;
            }
            i = i + 1;
        }
        i
    }

    /// Add an entity under the key of `key`: a unique index refuses a key
    /// it already holds; otherwise the entity goes after those already
    /// under the key, or under a new key in its place.
    pub fn insert(&mut self, key: &PropertyValue, entity_id: EntityId) -> (r: Result<(), String>)
        requires
            old(self).wf(),
        ensures
            final(self).wf(),
            final(self).name == old(self).name,
            final(self).collection == old(self).collection,
            final(self).field == old(self).field,
            final(self).unique == old(self).unique,
            old(self).unique && find(old(self).entries_spec(), key_of(key@)) is Some ==> (r matches Err(e) && e@
                == duplicate_key_msg(key_of(key@)) && final(self).entries_spec() == old(self).entries_spec()),
            !(old(self).unique && find(old(self).entries_spec(), key_of(key@)) is Some) ==> (r is Ok
                && final(self).entries_spec() == added(old(self).entries_spec(), key_of(key@), entity_id.0)),
    {
        let ghost t = self.entries_spec();
        let index_key = IndexKey::from_value(key);
        let ghost k = index_key@;
        let p = self.lower_bound(&index_key);
        proof {
            lemma_lower(t, k, 0);
        }
        let found = p < self.tree.len() && key_equal(&self.tree[p].0, &index_key);
        proof {
            if p < self.tree.len() {
                assert(t[p as int].0 == self.tree@[p as int].0@);
            }
            assert(found == (find(t, k) is Some));
        }
        if self.unique && found {
            let text = key_text(&index_key);
            return Err(concat2("Unique constraint violated: duplicate key ", text.as_str()));
        }
        if found {
            let (kk, mut ids) = self.tree.remove(p);
            let ghost before = id_nums(ids@);
            ids.push(entity_id);
            assert(id_nums(ids@) =~= before.push(entity_id.0));
            self.tree.insert(p, (kk, ids));
            proof {
                assert(self.entries_spec() =~= t.update(p as int, (k, t[p as int].1.push(entity_id.0))));
            }
        } else {
            let ids = vec![entity_id];
            assert(id_nums(ids@) =~= seq![entity_id.0]);
            self.tree.insert(p, (index_key, ids));
            proof {
                let t2 = t.insert(p as int, (k, seq![entity_id.0]));
                assert(self.entries_spec() =~= t2);
                assert forall|i: int, j: int| 0 <= i < j < t2.len() implies key_lt(#[trigger] t2[i].0, #[trigger] t2[j].0) by {
                    if j < p {
                    } else if j == p {
                        assert(key_lt(t[i].0, k));
                    } else if i < p {
                        assert(key_lt(t[i].0, k));
                        assert(!key_lt(t[j - 1].0, k));
                        lemma_key_lt(t[j - 1].0, k, t[j - 1].0);
                        lemma_key_lt(t[i].0, k, t[j - 1].0);
                    } else if i == p {
                        assert(!key_lt(t[j - 1].0, k));
                        lemma_key_lt(t[j - 1].0, k, t[j - 1].0);
                    } else {
                        assert(t2[i] == t[i - 1]);
                        assert(t2[j] == t[j - 1]);
                    }
                }
            }
        }
        Ok(())
    }
}


/// Which keys a scan keeps.
pub enum Scan {
    /// Keys from the first bound to the second, both included.
    Between,
    /// Keys after the first bound.
    Above,
    /// Keys before the first bound.
    Below,
}

/// The keys that a scan with bounds `lo` and `hi` keeps.
pub open spec fn scan_keep(mode: Scan, lo: KeyView, hi: KeyView) -> spec_fn(KeyView) -> bool {
    match mode {
        Scan::Between => |k: KeyView| !key_lt(k, lo) && !key_lt(hi, k),
        Scan::Above => |k: KeyView| key_lt(lo, k),
        Scan::Below => |k: KeyView| key_lt(k, lo),
    }
}

fn keeps(mode: &Scan, lo: &IndexKey, hi: &IndexKey, k: &IndexKey) -> (r: bool)
    ensures
        r == scan_keep(*mode, lo@, hi@)(k@),
{
    match mode {
        Scan::Between => !key_less(k, lo) && !key_less(hi, k),
        Scan::Above => key_less(lo, k),
        Scan::Below => key_less(k, lo),
    }
}

/// `ids` followed by `more`.
fn push_all(ids: &mut Vec<EntityId>, more: &Vec<EntityId>)
    ensures
        id_nums(final(ids)@) == id_nums(old(ids)@) + id_nums(more@),
{
    let ghost start = id_nums(ids@);
    let mut i: usize = 0;
    while i < more.len()
        invariant
            i <= more.len(),
            id_nums(ids@) == start + id_nums(more@).take(i as int),
        decreases more.len() - i,
    {
        let ghost before = id_nums(ids@);
        ids.push(more[i]);
        assert(id_nums(ids@) =~= before.push(more@[i as int].0));
        assert(id_nums(more@).take(i + 1) =~= id_nums(more@).take(i as int).push(more@[i as int].0));
        i = i + 1;
    }
    assert(id_nums(more@).take(i as int) =~= id_nums(more@));
}

/// The IDs of `v` other than `id`, in their order.
fn without_id(v: &Vec<EntityId>, id: EntityId) -> (r: Vec<EntityId>)
    ensures
        id_nums(r@) == id_nums(v@).filter(not_id(id.0)),
{
    let ghost s = id_nums(v@);
    let mut out: Vec<EntityId> = Vec::new();
    let mut i: usize = 0;
    proof {
        reveal_with_fuel(Seq::<u64>::filter, 1);
        assert(s.take(0).len() == 0);
    }
    assert(id_nums(out@) =~= s.take(0).filter(not_id(id.0)));
    while i < v.len()
        invariant
            s == id_nums(v@),
            i <= v.len(),
            id_nums(out@) == s.take(i as int).filter(not_id(id.0)),
        decreases v.len() - i,
    {
        let x = v[i];
        proof {
            assert(s.take(i + 1).drop_last() =~= s.take(i as int));
            assert(s.take(i + 1).last() == x.0);
            reveal_with_fuel(Seq::<u64>::filter, 1);
        }
        if x.0 != id.0 {
            let ghost before = id_nums(out@);
            out.push(x);
            assert(id_nums(out@) =~= before.push(x.0));
        }
        i = i + 1;
    }
    assert(s.take(i as int) =~= s);
    out
}

impl BTreeIndex {
    /// The IDs under the key of `key`, in the order they were added; none
    /// where it is no key.
    pub fn lookup(&self, key: &PropertyValue) -> (r: Vec<EntityId>)
        requires
            self.wf(),
        ensures
            id_nums(r@) == ids_under(self.entries_spec(), key_of(key@)),
    {
        let ghost t = self.entries_spec();
        let k = IndexKey::from_value(key);
        let p = self.lower_bound(&k);
        if p < self.tree.len() && key_equal(&self.tree[p].0, &k) {
            assert(t[p as int] == (self.tree@[p as int].0@, id_nums(self.tree@[p as int].1@)));
            let mut r: Vec<EntityId> = Vec::new();
            push_all(&mut r, &self.tree[p].1);
            assert(id_nums(r@) =~= t[p as int].1);
            r
        } else {
            proof {
                if p < self.tree.len() {
                    assert(t[p as int].0 == self.tree@[p as int].0@);
                }
            }
            let r: Vec<EntityId> = Vec::new();
            assert(id_nums(r@) =~= Seq::<u64>::empty());
            r
        }
    }

    /// Take an entity from under the key of `key`; a key left with no
    /// entity goes.
    pub fn remove(&mut self, key: &PropertyValue, entity_id: EntityId)
        requires
            old(self).wf(),
        ensures
            final(self).wf(),
            final(self).name == old(self).name,
            final(self).collection == old(self).collection,
            final(self).field == old(self).field,
            final(self).unique == old(self).unique,
            final(self).entries_spec() == taken(old(self).entries_spec(), key_of(key@), entity_id.0),
    {
        let ghost t = self.entries_spec();
        let k = IndexKey::from_value(key);
        let p = self.lower_bound(&k);
        if p < self.tree.len() && key_equal(&self.tree[p].0, &k) {
            assert(t[p as int] == (self.tree@[p as int].0@, id_nums(self.tree@[p as int].1@)));
            let (kk, ids) = self.tree.remove(p);
            let rest = without_id(&ids, entity_id);
            assert(id_nums(rest@) =~= t[p as int].1.filter(not_id(entity_id.0)));
            if rest.len() == 0 {
                proof {
                    let t2 = t.remove(p as int);
                    assert(self.entries_spec() =~= t2);
                    assert forall|i: int, j: int| 0 <= i < j < t2.len() implies key_lt(#[trigger] t2[i].0, #[trigger] t2[j].0) by {
                        let i0 = if i < p { i } else { i + 1 };
                        let j0 = if j < p { j } else { j + 1 };
                        assert(t2[i] == t[i0]);
                        assert(t2[j] == t[j0]);
                    }
                }
            } else {
                self.tree.insert(p, (kk, rest));
                proof {
                    let t2 = t.update(p as int, (k@, t[p as int].1.filter(not_id(entity_id.0))));
                    assert(self.entries_spec() =~= t2);
                    assert forall|i: int, j: int| 0 <= i < j < t2.len() implies key_lt(#[trigger] t2[i].0, #[trigger] t2[j].0) by {
                        assert(t2[i].0 == t[i].0);
                        assert(t2[j].0 == t[j].0);
                    }
                }
            }
        } else {
            proof {
                if p < self.tree.len() {
                    assert(t[p as int].0 == self.tree@[p as int].0@);
                }
            }
        }
    }

    /// The IDs under the keys that the scan keeps, key after key.
    fn scan(&self, mode: &Scan, lo: &IndexKey, hi: &IndexKey) -> (r: Vec<EntityId>)
        ensures
            id_nums(r@) == gather(self.entries_spec(), scan_keep(*mode, lo@, hi@)),
    {
        let ghost t = self.entries_spec();
        let ghost keep = scan_keep(*mode, lo@, hi@);
        let mut r: Vec<EntityId> = Vec::new();
        let mut i: usize = 0;
        assert(t.take(0) =~= Seq::<(KeyView, Seq<u64>)>::empty());
        assert(id_nums(r@) =~= Seq::<u64>::empty());
        while i < self.tree.len()
            invariant
                t == self.entries_spec(),
                keep == scan_keep(*mode, lo@, hi@),
                i <= self.tree.len(),
                id_nums(r@) == gather(t.take(i as int), keep),
            decreases self.tree.len() - i,
        {
            proof {
                assert(t.take(i + 1).drop_last() =~= t.take(i as int));
                assert(t.take(i + 1).last() == t[i as int]);
                assert(t[i as int] == (self.tree@[i as int].0@, id_nums(self.tree@[i as int].1@)));
            }
            if keeps(mode, lo, hi, &self.tree[i].0) {
                push_all(&mut r, &self.tree[i].1);
            } else {
                assert(id_nums(r@) =~= id_nums(r@) + Seq::<u64>::empty());
            }
            i = i + 1;
        }
        assert(t.take(i as int) =~= t);
        r
    }

    /// The IDs under the keys from the key of `start` to that of `end`,
    /// both included, key after key.
    pub fn range_scan(&self, start: &PropertyValue, end: &PropertyValue) -> (r: Vec<EntityId>)
        requires
            !key_lt(key_of(end@), key_of(start@)),
        ensures
            id_nums(r@) == gather(self.entries_spec(), scan_keep(Scan::Between, key_of(start@), key_of(end@))),
    {
        let lo = IndexKey::from_value(start);
        let hi = IndexKey::from_value(end);
        self.scan(&Scan::Between, &lo, &hi)
    }

    /// The IDs under the keys after the key of `value`, key after key.
    pub fn greater_than(&self, value: &PropertyValue) -> (r: Vec<EntityId>)
        ensures
            id_nums(r@) == gather(self.entries_spec(), scan_keep(Scan::Above, key_of(value@), key_of(value@))),
    {
        let k = IndexKey::from_value(value);
        self.scan(&Scan::Above, &k, &k)
    }

    /// The IDs under the keys before the key of `value`, key after key.
    pub fn less_than(&self, value: &PropertyValue) -> (r: Vec<EntityId>)
        ensures
            id_nums(r@) == gather(self.entries_spec(), scan_keep(Scan::Below, key_of(value@), key_of(value@))),
    {
        let k = IndexKey::from_value(value);
        self.scan(&Scan::Below, &k, &k)
    }

    /// The number of keys.
    pub fn size(&self) -> (r: usize)
        ensures
            r == self.entries_spec().len(),
    {
        self.tree.len()
    }

    /// The number of IDs under all keys, capped at the largest `usize`.
    pub fn total_entities(&self) -> (r: usize)
        ensures
            r == capped(id_count(self.entries_spec())),
    {
        let ghost t = self.entries_spec();
        let mut n: usize = 0;
        let mut i: usize = 0;
        assert(t.take(0) =~= Seq::<(KeyView, Seq<u64>)>::empty());
        while i < self.tree.len()
            invariant
                t == self.entries_spec(),
                i <= self.tree.len(),
                n == capped(id_count(t.take(i as int))),
            decreases self.tree.len() - i,
        {
            proof {
                assert(t.take(i + 1).drop_last() =~= t.take(i as int));
                assert(t.take(i + 1).last() == t[i as int]);
                assert(t[i as int].1.len() == self.tree@[i as int].1@.len());
            }
            n = n.saturating_add(self.tree[i].1.len());
            i = i + 1;
        }
        assert(t.take(i as int) =~= t);
        n
    }
}

// ---------------------------------------------------------------------
// The indexes of a database
// ---------------------------------------------------------------------

/// Two indexes alike in name, collection, field, uniqueness and entries.
pub open spec fn same_index(a: BTreeIndex, b: BTreeIndex) -> bool {
    &&& a.name@ == b.name@
    &&& a.collection@ == b.collection@
    &&& a.field@ == b.field@
    &&& a.unique == b.unique
    &&& a.entries_spec() == b.entries_spec()
}

impl BTreeIndex {
    /// A copy of the index.
    pub fn copy(&self) -> (r: Self)
        ensures
            same_index(r, *self),
    {
        let mut tree: Vec<(IndexKey, Vec<EntityId>)> = Vec::new();
        let mut i: usize = 0;
        while i < self.tree.len()
            invariant
                i <= self.tree.len(),
                tree@.len() == i,
                forall|j: int| 0 <= j < i ==> (#[trigger] tree@[j]).0@ == self.tree@[j].0@ && id_nums(tree@[j].1@)
                    == id_nums(self.tree@[j].1@),
            decreases self.tree.len() - i,
        {
            let mut ids: Vec<EntityId> = Vec::new();
            push_all(&mut ids, &self.tree[i].1);
            assert(id_nums(ids@) =~= id_nums(self.tree@[i as int].1@));
            tree.push((copy_key(&self.tree[i].0), ids));
            i = i + 1;
        }
        let r = BTreeIndex {
            name: self.name.clone(),
            collection: self.collection.clone(),
            field: self.field.clone(),
            tree,
            unique: self.unique,
        };
        assert(r.entries_spec() =~= self.entries_spec());
        r
    }
}

/// Statistics of one index.
#[derive(Debug, Clone)]
pub struct IndexStats {
    pub name: String,
    pub collection: String,
    pub field: String,
    pub unique: bool,
    pub size: usize,
    pub total_entities: usize,
}

/// The first place at or after `i` whose index `pred` holds for; the
/// length where there is none.
pub open spec fn first_where(s: Seq<BTreeIndex>, pred: spec_fn(BTreeIndex) -> bool, i: int) -> int
    decreases s.len() - i,
{
    if i < 0 || i >= s.len() {
        s.len() as int
    } else if pred(s[i]) {
        i
    } else {
        first_where(s, pred, i + 1)
    }
}

/// Indexes with the name `name`.
pub open spec fn has_name(name: Seq<char>) -> spec_fn(BTreeIndex) -> bool {
    |x: BTreeIndex| x.name@ == name
}

/// Indexes with another name than `name`.
pub open spec fn other_name(name: Seq<char>) -> spec_fn(BTreeIndex) -> bool {
    |x: BTreeIndex| x.name@ != name
}

/// Indexes on `field` of `collection`.
pub open spec fn on_field(collection: Seq<char>, field: Seq<char>) -> spec_fn(BTreeIndex) -> bool {
    |x: BTreeIndex| x.collection@ == collection && x.field@ == field
}

/// Some index is named `name`.
pub open spec fn named(s: Seq<BTreeIndex>, name: Seq<char>) -> bool {
    first_where(s, has_name(name), 0) < s.len()
}

/// An index takes an entity of `collection` with properties `props`: it
/// is on that collection and they set its field.
pub open spec fn applies(x: BTreeIndex, collection: Seq<char>, props: Properties) -> bool {
    x.collection@ == collection && props.has(x.field@)
}

/// The key that the properties give an index.
pub open spec fn key_for(x: BTreeIndex, props: Properties) -> KeyView {
    key_of(props.value_of(x.field@).unwrap())
}

/// Indexes that refuse an entity of `collection` with properties
/// `props`: unique ones that already hold its key.
pub open spec fn refusing(collection: Seq<char>, props: Properties) -> spec_fn(BTreeIndex) -> bool {
    |x: BTreeIndex|
        applies(x, collection, props) && x.unique && find(x.entries_spec(), key_for(x, props)) is Some
}

/// The entries of an index once it has taken the entity `id`.
pub open spec fn entries_with(x: BTreeIndex, collection: Seq<char>, props: Properties, id: u64) -> Entries {
    if applies(x, collection, props) {
        added(x.entries_spec(), key_for(x, props), id)
    } else {
        x.entries_spec()
    }
}

/// The entries of an index once the entity `id` has left it.
pub open spec fn entries_without(x: BTreeIndex, collection: Seq<char>, props: Properties, id: u64) -> Entries {
    if applies(x, collection, props) {
        taken(x.entries_spec(), key_for(x, props), id)
    } else {
        x.entries_spec()
    }
}

/// The same index but for its entries.
pub open spec fn same_frame(a: BTreeIndex, b: BTreeIndex) -> bool {
    a.name == b.name && a.collection == b.collection && a.field == b.field && a.unique == b.unique
}

/// The indexes of a database, in the order they were created.
#[derive(Debug)]
pub struct IndexManager {
    indexes: Vec<BTreeIndex>,
}

impl IndexManager {
    /// The indexes in the order they were created.
    pub closed spec fn indexes_spec(&self) -> Seq<BTreeIndex> {
        self.indexes@
    }

    /// Every index keeps its keys in order.
    pub open spec fn wf(&self) -> bool {
        forall|i: int| 0 <= i < self.indexes_spec().len() ==> (#[trigger] self.indexes_spec()[i]).wf()
    }

    /// A manager with no index.
    pub fn new() -> (r: Self)
        ensures
            r.wf(),
            r.indexes_spec() == Seq::<BTreeIndex>::empty(),
    {
        let r = IndexManager { indexes: Vec::new() };
        assert(r.indexes_spec() =~= Seq::<BTreeIndex>::empty());
        r
    }

    /// Where the first index that `pred` holds for is; its test is the
    /// name `name`, or `collection` and `field`.
    fn position(&self, by_name: bool, name: &str, collection: &str, field: &str) -> (r: usize)
        ensures
            r as int == first_where(
                self.indexes_spec(),
                if by_name { has_name(name@) } else { on_field(collection@, field@) },
                0,
            ),
    {
        let ghost s = self.indexes@;
        let ghost pred = if by_name { has_name(name@) } else { on_field(collection@, field@) };
        let mut i: usize = 0;
        while i < self.indexes.len()
            invariant
                s == self.indexes@,
                pred == (if by_name { has_name(name@) } else { on_field(collection@, field@) }),
                i <= self.indexes.len(),
                first_where(s, pred, 0) == first_where(s, pred, i as int),
            decreases self.indexes.len() - i,
        {
            let x = &self.indexes[i];
            let hit = if by_name {
                str_equal(x.name.as_str(), name)
            } else {
                str_equal(x.collection.as_str(), collection) && str_equal(x.field.as_str(), field)
            };
            if hit {
                return i;
            }
            i = i + 1;
        }
        i
    }

    /// Add a new empty index at the end; a name already taken is refused.
    pub fn create_index(&mut self, name: String, collection: String, field: String, unique: bool) -> (r: Result<(), String>)
        requires
            old(self).wf(),
        ensures
            final(self).wf(),
            named(old(self).indexes_spec(), name@) ==> (r matches Err(e) && e@ == "Index "@ + name@ + " already exists"@
                && final(self).indexes_spec() == old(self).indexes_spec()),
            !named(old(self).indexes_spec(), name@) ==> (r is Ok && final(self).indexes_spec().len() == old(
                self,
            ).indexes_spec().len() + 1 && final(self).indexes_spec().drop_last() == old(self).indexes_spec() && ({
                let x = final(self).indexes_spec().last();
                &&& x.name@ == name@
                &&& x.collection@ == collection@
                &&& x.field@ == field@
                &&& x.unique == unique
                &&& x.entries_spec() == Seq::<(KeyView, Seq<u64>)>::empty()
            })),
    {
        let p = self.position(true, name.as_str(), "", "");
        if p < self.indexes.len() {
            return Err(concat3("Index ", name.as_str(), " already exists"));
        }
        let ghost before = self.indexes@;
        let index = BTreeIndex::new(name, collection, field, unique);
        self.indexes.push(index);
        assert(self.indexes@.drop_last() =~= before);
        Ok(())
    }

    /// Remove every index named `name`; where there is none, say so.
    pub fn drop_index(&mut self, name: &str) -> (r: Result<(), String>)
        requires
            old(self).wf(),
        ensures
            final(self).wf(),
            final(self).indexes_spec() == old(self).indexes_spec().filter(other_name(name@)),
            named(old(self).indexes_spec(), name@) ==> r is Ok,
            !named(old(self).indexes_spec(), name@) ==> (r matches Err(e) && e@ == "Index "@ + name@ + " not found"@),
    {
        let ghost orig = self.indexes@;
        let ghost pred = has_name(name@);
        let n = self.indexes.len();
        assert forall|j: int| 0 <= j < orig.len() implies (#[trigger] orig[j]).wf() by {
            assert(self.indexes_spec()[j] == orig[j]);
        }
        let mut rest: Vec<BTreeIndex> = Vec::new();
        std::mem::swap(&mut rest, &mut self.indexes);
        let mut found = false;
        let mut i: usize = 0;
        proof {
            reveal_with_fuel(Seq::<BTreeIndex>::filter, 1);
            assert(orig.take(0).len() == 0);
            assert(orig.skip(0) =~= orig);
        }
        assert(self.indexes@ =~= orig.take(0).filter(other_name(name@)));
        while rest.len() > 0
            invariant
                orig.len() == n,
                i <= orig.len(),
                rest@ == orig.skip(i as int),
                pred == has_name(name@),
                self.indexes@ == orig.take(i as int).filter(other_name(name@)),
                forall|j: int| 0 <= j < orig.len() ==> (#[trigger] orig[j]).wf(),
                forall|j: int| 0 <= j < self.indexes@.len() ==> (#[trigger] self.indexes@[j]).wf(),
                !found ==> first_where(orig, pred, 0) == first_where(orig, pred, i as int),
                found ==> first_where(orig, pred, 0) < orig.len(),
            decreases rest.len(),
        {
            let x = rest.remove(0);
            proof {
                assert(orig.skip(i as int)[0] == orig[i as int]);
                assert(orig.skip(i as int).drop_first() =~= orig.skip(i + 1));
                assert(orig.take(i + 1).drop_last() =~= orig.take(i as int));
                assert(orig.take(i + 1).last() == orig[i as int]);
                reveal_with_fuel(Seq::<BTreeIndex>::filter, 1);
            }
            if str_equal(x.name.as_str(), name) {
                found = true;
            } else {
                self.indexes.push(x);
            }
            i = i + 1;
        }
        proof {
            assert(orig.skip(i as int).len() == 0);
            assert(orig.take(i as int) =~= orig);
        }
        if found {
            Ok(())
        } else {
            Err(concat3("Index ", name, " not found"))
        }
    }

    /// A copy of the first index named `name`.
    pub fn get_index(&self, name: &str) -> (r: Option<BTreeIndex>)
        ensures
            ({
                let s = self.indexes_spec();
                let p = first_where(s, has_name(name@), 0);
                if p < s.len() {
                    r matches Some(x) && same_index(x, s[p])
                } else {
                    r is None
                }
            }),
    {
        let p = self.position(true, name, "", "");
        if p < self.indexes.len() {
            Some(self.indexes[p].copy())
        } else {
            None
        }
    }

    /// A copy of the first index on `field` of `collection`.
    pub fn find_index(&self, collection: &str, field: &str) -> (r: Option<BTreeIndex>)
        ensures
            ({
                let s = self.indexes_spec();
                let p = first_where(s, on_field(collection@, field@), 0);
                if p < s.len() {
                    r matches Some(x) && same_index(x, s[p])
                } else {
                    r is None
                }
            }),
    {
        let p = self.position(false, "", collection, field);
        if p < self.indexes.len() {
            Some(self.indexes[p].copy())
        } else {
            None
        }
    }

    /// Add an entity of `collection` to every index on that collection
    /// whose field its properties set, in order; the first index that
    /// refuses it stops the work and its error is returned, with the
    /// indexes before it already updated.
    pub fn insert_into_indexes(&mut self, collection: &str, entity_id: EntityId, properties: &Properties) -> (r: Result<(), String>)
        requires
            old(self).wf(),
        ensures
            final(self).wf(),
            ({
                let s = old(self).indexes_spec();
                let s2 = final(self).indexes_spec();
                let f = first_where(s, refusing(collection@, *properties), 0);
                &&& s2.len() == s.len()
                &&& forall|i: int| 0 <= i < s.len() ==> same_frame(#[trigger] s2[i], s[i])
                &&& forall|i: int| 0 <= i < s.len() ==> (#[trigger] s2[i]).entries_spec() == if i < f {
                    entries_with(s[i], collection@, *properties, entity_id.0)
                } else {
                    s[i].entries_spec()
                }
                &&& f < s.len() ==> (r matches Err(e) && e@ == duplicate_key_msg(key_for(s[f], *properties)))
                &&& f == s.len() ==> r is Ok
            }),
    {
        let ghost s = self.indexes@;
        let ghost pred = refusing(collection@, *properties);
        let mut i: usize = 0;
        while i < self.indexes.len()
            invariant
                s == old(self).indexes_spec(),
                s.len() == self.indexes@.len(),
                pred == refusing(collection@, *properties),
                i <= s.len(),
                first_where(s, pred, 0) == first_where(s, pred, i as int),
                forall|j: int| 0 <= j < s.len() ==> same_frame(#[trigger] self.indexes@[j], s[j]),
                forall|j: int| 0 <= j < s.len() ==> (#[trigger] self.indexes@[j]).wf(),
                forall|j: int| 0 <= j < s.len() ==> (#[trigger] s[j]).wf(),
                forall|j: int| 0 <= j < i ==> (#[trigger] self.indexes@[j]).entries_spec() == entries_with(
                    s[j], collection@, *properties, entity_id.0),
                forall|j: int| i <= j < s.len() ==> (#[trigger] self.indexes@[j]).entries_spec() == s[j].entries_spec(),
            decreases s.len() - i,
        {
            let ghost before = self.indexes@;
            let ghost old_x = s[i as int];
            if str_equal(self.indexes[i].collection.as_str(), collection) {
                match properties.get(self.indexes[i].field.as_str()) {
                    Some(value) => {
                        let mut x = self.indexes.remove(i);
                        let res = x.insert(value, entity_id);
                        self.indexes.insert(i, x);
                        assert(self.indexes@ =~= before.update(i as int, self.indexes@[i as int]));
                        match res {
                            Err(e) => {
                                assert(pred(old_x));
                                assert(first_where(s, pred, i as int) == i);
                                return Err(e);
                            },
                            Ok(()) => {
                                assert(!pred(old_x));
                            },
                        }
                    },
                    None => {},
                }
            }
            i = i + 1;
        }
        Ok(())
    }

    /// Take an entity of `collection` from every index on that collection
    /// whose field its properties set.
    pub fn remove_from_indexes(&mut self, collection: &str, entity_id: EntityId, properties: &Properties)
        requires
            old(self).wf(),
        ensures
            final(self).wf(),
            ({
                let s = old(self).indexes_spec();
                let s2 = final(self).indexes_spec();
                &&& s2.len() == s.len()
                &&& forall|i: int| 0 <= i < s.len() ==> same_frame(#[trigger] s2[i], s[i])
                &&& forall|i: int| 0 <= i < s.len() ==> (#[trigger] s2[i]).entries_spec() == entries_without(
                    s[i], collection@, *properties, entity_id.0)
            }),
    {
        let ghost s = self.indexes@;
        let mut i: usize = 0;
        while i < self.indexes.len()
            invariant
                s.len() == self.indexes@.len(),
                i <= s.len(),
                forall|j: int| 0 <= j < s.len() ==> same_frame(#[trigger] self.indexes@[j], s[j]),
                forall|j: int| 0 <= j < s.len() ==> (#[trigger] self.indexes@[j]).wf(),
                forall|j: int| 0 <= j < s.len() ==> (#[trigger] s[j]).wf(),
                forall|j: int| 0 <= j < i ==> (#[trigger] self.indexes@[j]).entries_spec() == entries_without(
                    s[j], collection@, *properties, entity_id.0),
                forall|j: int| i <= j < s.len() ==> (#[trigger] self.indexes@[j]).entries_spec() == s[j].entries_spec(),
            decreases s.len() - i,
        {
            let ghost before = self.indexes@;
            if str_equal(self.indexes[i].collection.as_str(), collection) {
                match properties.get(self.indexes[i].field.as_str()) {
                    Some(value) => {
                        let mut x = self.indexes.remove(i);
                        x.remove(value, entity_id);
                        self.indexes.insert(i, x);
                        assert(self.indexes@ =~= before.update(i as int, self.indexes@[i as int]));
                    },
                    None => {},
                }
            }
            i = i + 1;
        }
    }

    /// The names of the indexes, in order.
    pub fn list_indexes(&self) -> (r: Vec<String>)
        ensures
            r@.len() == self.indexes_spec().len(),
            forall|i: int| 0 <= i < r@.len() ==> (#[trigger] r@[i])@ == self.indexes_spec()[i].name@,
    {
        let mut r: Vec<String> = Vec::new();
        let mut i: usize = 0;
        while i < self.indexes.len()
            invariant
                i <= self.indexes.len(),
                r@.len() == i,
                forall|j: int| 0 <= j < i ==> (#[trigger] r@[j])@ == self.indexes@[j].name@,
            decreases self.indexes.len() - i,
        {
            r.push(self.indexes[i].name.clone());
            i = i + 1;
        }
        r
    }

    /// The statistics of the first index named `name`.
    pub fn index_stats(&self, name: &str) -> (r: Option<IndexStats>)
        ensures
            ({
                let s = self.indexes_spec();
                let p = first_where(s, has_name(name@), 0);
                if p < s.len() {
                    r matches Some(st) && st.name@ == s[p].name@ && st.collection@ == s[p].collection@
                        && st.field@ == s[p].field@ && st.unique == s[p].unique && st.size
                        == s[p].entries_spec().len() && st.total_entities == capped(id_count(s[p].entries_spec()))
                } else {
                    r is None
                }
            }),
    {
        let p = self.position(true, name, "", "");
        if p < self.indexes.len() {
            let x = &self.indexes[p];
            Some(
                IndexStats {
                    name: x.name.clone(),
                    collection: x.collection.clone(),
                    field: x.field.clone(),
                    unique: x.unique,
                    size: x.size(),
                    total_entities: x.total_entities(),
                },
            )
        } else {
            None
        }
    }
}

impl Default for IndexManager {
    fn default() -> (r: Self)
        ensures
            r.wf(),
            r.indexes_spec() == Seq::<BTreeIndex>::empty(),
    {
        IndexManager::new()
    }
}

// ---------------------------------------------------------------------
// Laws
// ---------------------------------------------------------------------

/// `lower` stops at the first place whose key does not order before `k`.
proof fn lemma_lower_at(t: Entries, k: KeyView, i: int, q: int)
    requires
        0 <= i <= q <= t.len(),
        forall|j: int| i <= j < q ==> key_lt(#[trigger] t[j].0, k),
        q < t.len() ==> !key_lt(t[q].0, k),
    ensures
        lower(t, k, i) == q,
    decreases q - i,
{
    if i < q {
        lemma_lower_at(t, k, i + 1, q);
    }
}

/// Entries with the same keys in the same places find a key at the same
/// place.
proof fn lemma_lower_same_keys(t: Entries, t2: Entries, k: KeyView)
    requires
        sorted(t),
        t2.len() == t.len(),
        forall|j: int| 0 <= j < t.len() ==> (#[trigger] t2[j]).0 == t[j].0,
    ensures
        lower(t2, k, 0) == lower(t, k, 0),
{
    lemma_lower(t, k, 0);
    let q = lower(t, k, 0);
    assert forall|j: int| 0 <= j < q implies key_lt(#[trigger] t2[j].0, k) by {
        assert(key_lt(t[j].0, k));
    }
    if q < t.len() {
        assert(!key_lt(t[q].0, k));
    }
    lemma_lower_at(t2, k, 0, q);
}

/// A lookup after an insert gives the IDs that were under the key, then
/// the new one; the key is then held, so a unique index refuses it next.
pub proof fn law_lookup_sees_insert(t: Entries, k: KeyView, id: u64)
    requires
        sorted(t),
    ensures
        find(added(t, k, id), k) is Some,
        ids_under(added(t, k, id), k) == ids_under(t, k).push(id),
{
    lemma_lower(t, k, 0);
    let q = lower(t, k, 0);
    let t2 = added(t, k, id);
    match find(t, k) {
        Some(p) => {
            lemma_lower_same_keys(t, t2, k);
        },
        None => {
            assert forall|j: int| 0 <= j < q implies key_lt(#[trigger] t2[j].0, k) by {
                assert(t2[j] == t[j]);
                assert(key_lt(t[j].0, k));
            }
            lemma_key_lt(k, k, k);
            lemma_lower_at(t2, k, 0, q);
            assert(Seq::<u64>::empty().push(id) =~= seq![id]);
        },
    }
}

/// A lookup after a remove gives the IDs that were under the key, less
/// the removed one.
pub proof fn law_lookup_after_remove(t: Entries, k: KeyView, id: u64)
    requires
        sorted(t),
    ensures
        ids_under(taken(t, k, id), k) == ids_under(t, k).filter(not_id(id)),
{
    lemma_lower(t, k, 0);
    let t2 = taken(t, k, id);
    reveal_with_fuel(Seq::<u64>::filter, 1);
    match find(t, k) {
        Some(p) => {
            let rest = t[p].1.filter(not_id(id));
            if rest.len() == 0 {
                assert forall|j: int| 0 <= j < p implies key_lt(#[trigger] t2[j].0, k) by {
                    assert(t2[j] == t[j]);
                    assert(key_lt(t[j].0, k));
                }
                if p < t2.len() {
                    assert(t2[p] == t[p + 1]);
                    assert(key_lt(t[p].0, t[p + 1].0));
                    lemma_key_lt(k, t[p + 1].0, k);
                }
                lemma_lower_at(t2, k, 0, p);
                assert(rest =~= Seq::<u64>::empty());
            } else {
                lemma_lower_same_keys(t, t2, k);
            }
        },
        None => {
            assert(Seq::<u64>::empty().len() == 0);
        },
    }
}

/// `first_where` finds nothing where `pred` holds for no index.
proof fn lemma_first_where_none(s: Seq<BTreeIndex>, pred: spec_fn(BTreeIndex) -> bool, i: int)
    requires
        0 <= i <= s.len(),
        forall|j: int| 0 <= j < s.len() ==> !pred(#[trigger] s[j]),
    ensures
        first_where(s, pred, i) == s.len(),
    decreases s.len() - i,
{
    if i < s.len() {
        lemma_first_where_none(s, pred, i + 1);
    }
}

/// `first_where` finds something no later than a place where `pred`
/// holds.
proof fn lemma_first_where_some(s: Seq<BTreeIndex>, pred: spec_fn(BTreeIndex) -> bool, i: int, j: int)
    requires
        0 <= i <= j < s.len(),
        pred(s[j]),
    ensures
        first_where(s, pred, i) <= j,
    decreases j - i,
{
    if i < j && !pred(s[i]) {
        lemma_first_where_some(s, pred, i + 1, j);
    }
}

/// Once the indexes named `name` are dropped, none is named so.
pub proof fn law_dropped_name_is_gone(s: Seq<BTreeIndex>, name: Seq<char>)
    ensures
        !named(s.filter(other_name(name)), name),
{
    let f = s.filter(other_name(name));
    s.filter_lemma(other_name(name));
    assert forall|j: int| 0 <= j < f.len() implies !has_name(name)(#[trigger] f[j]) by {
        assert(other_name(name)(f[j]));
    }
    lemma_first_where_none(f, has_name(name), 0);
}

/// A created index is found by its name.
pub proof fn law_created_is_named(s: Seq<BTreeIndex>, x: BTreeIndex)
    ensures
        named(s.push(x), x.name@),
{
    let s2 = s.push(x);
    assert(has_name(x.name@)(s2[s.len() as int]));
    lemma_first_where_some(s2, has_name(x.name@), 0, s.len() as int);
}

} // verus!
