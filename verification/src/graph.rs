//! The in-memory graph: entities grouped in collections, directed typed
//! edges between them, and for each entity the edges that leave it and the
//! edges that reach it. The tables are concurrent maps of the `dashmap`
//! crate, each seen through a name for what it holds.

use vstd::prelude::*;
use dashmap::DashMap;
use crate::types::{EntityId, EdgeId, Properties, PropertyValue, ValueView};
use crate::clock::current_millis;

verus! {

/// The concurrent map of the `dashmap` crate, opaque to proofs.
#[verifier::external_type_specification]
#[verifier::external_body]
#[verifier::reject_recursive_types(K)]
#[verifier::reject_recursive_types(V)]
#[verifier::reject_recursive_types(S)]
pub struct ExDashMap<K, V, S>(DashMap<K, V, S>);

/// Entity (universal node): a table row and a graph vertex at once.
/// Times are milliseconds since the Unix epoch.
#[derive(Debug)]
pub struct Entity {
    pub id: EntityId,
    pub entity_type: String,
    pub properties: Properties,
    pub access_count: u64,
    pub last_accessed: u64,
    pub created_at: u64,
}

/// An entity with its texts as characters and its properties as entries.
pub struct EntityView {
    pub id: u64,
    pub entity_type: Seq<char>,
    pub properties: Seq<(Seq<char>, ValueView)>,
    pub access_count: u64,
    pub last_accessed: u64,
    pub created_at: u64,
}

impl View for Entity {
    type V = EntityView;

    open spec fn view(&self) -> EntityView {
        EntityView {
            id: self.id.0,
            entity_type: self.entity_type@,
            properties: self.properties.entries_spec(),
            access_count: self.access_count,
            last_accessed: self.last_accessed,
            created_at: self.created_at,
        }
    }
}

/// A copy of an entity.
pub fn copy_entity(e: &Entity) -> (r: Entity)
    ensures
        r@ == e@,
        r.properties.wf() == e.properties.wf(),
{
    Entity {
        id: e.id,
        entity_type: e.entity_type.clone(),
        properties: e.properties.copy(),
        access_count: e.access_count,
        last_accessed: e.last_accessed,
        created_at: e.created_at,
    }
}

impl Entity {
    /// A new entity, created and last accessed now, never read.
    pub fn new(id: EntityId, entity_type: String, properties: Properties) -> (r: Self)
        ensures
            r.id == id,
            r.entity_type@ == entity_type@,
            r.properties.entries_spec() == properties.entries_spec(),
            r.properties.wf() == properties.wf(),
            r.access_count == 0,
            r.last_accessed == r.created_at,
    {
        let now = current_millis();
        Entity { id, entity_type, properties, access_count: 0, last_accessed: now, created_at: now }
    }

    /// Count one more read, made now.
    pub fn mark_accessed(&mut self)
        requires
            old(self).access_count < u64::MAX,
        ensures
            final(self).access_count == old(self).access_count + 1,
            final(self).id == old(self).id,
            final(self).entity_type@ == old(self).entity_type@,
            final(self).properties.entries_spec() == old(self).properties.entries_spec(),
            final(self).properties.wf() == old(self).properties.wf(),
            final(self).created_at == old(self).created_at,
    {
        self.access_count = self.access_count + 1;
        self.last_accessed = current_millis();
    }

    /// The value of a property, if set.
    pub fn get_property(&self, key: &str) -> (r: Option<&PropertyValue>)
        ensures
            match self.properties.value_of(key@) {
                Some(v) => r matches Some(x) && x@ == v,
                None => r is None,
            },
    {
        self.properties.get(key)
    }

    /// Set a property: in place where it is set, after the others where
    /// it is not.
    pub fn set_property(&mut self, key: String, value: PropertyValue)
        requires
            old(self).properties.wf(),
        ensures
            final(self).properties.wf(),
            final(self).properties.entries_spec() == match crate::types::entry_pos(
                old(self).properties.entries_spec(),
                key@,
                0,
            ) {
                Some(i) => old(self).properties.entries_spec().update(i, (key@, value@)),
                None => old(self).properties.entries_spec().push((key@, value@)),
            },
            final(self).id == old(self).id,
            final(self).entity_type@ == old(self).entity_type@,
            final(self).access_count == old(self).access_count,
            final(self).last_accessed == old(self).last_accessed,
            final(self).created_at == old(self).created_at,
    {
        self.properties.insert(key, value);
    }
}

// ---------------------------------------------------------------------
// The entity table
// ---------------------------------------------------------------------

/// What an entity table holds: entities by the number of their ID.
pub uninterp spec fn entity_table(m: DashMap<u64, Entity>) -> Map<u64, EntityView>;

/// `DashMap::new`: a map that holds nothing.
#[verifier::external_body]
fn new_entity_table() -> (r: DashMap<u64, Entity>)
    ensures
        entity_table(r).dom() == Set::<u64>::empty(),
{
    DashMap::new()
}

/// `DashMap::insert`: afterwards the key holds the value and every other
/// key what it held.
#[verifier::external_body]
fn entity_table_insert(m: &mut DashMap<u64, Entity>, k: u64, v: Entity)
    ensures
        entity_table(*final(m)) == entity_table(*old(m)).insert(k, v@),
{
    m.insert(k, v);
}

/// `DashMap::get`, with the value found copied out.
#[verifier::external_body]
fn entity_table_get(m: &DashMap<u64, Entity>, k: u64) -> (r: Option<Entity>)
    ensures
        match entity_table(*m).get(k) {
            Some(e) => r matches Some(x) && x@ == e,
            None => r is None,
        },
{
    m.get(&k).map(|e| copy_entity(e.value()))
}

/// `DashMap::contains_key`.
#[verifier::external_body]
fn entity_table_contains(m: &DashMap<u64, Entity>, k: u64) -> (r: bool)
    ensures
        r == entity_table(*m).contains_key(k),
{
    m.contains_key(&k)
}

/// `DashMap::len`: the number of keys.
#[verifier::external_body]
fn entity_table_len(m: &DashMap<u64, Entity>) -> (r: usize)
    ensures
        r == entity_table(*m).len(),
{
    m.len()
}

/// Whether `s` lists the values of `t`, each key's value once, in some
/// order.
pub open spec fn lists_values<V>(t: Map<u64, V>, s: Seq<V>) -> bool {
    exists|ks: Seq<u64>|
        #![trigger ks.to_set()]
        ks.len() == s.len() && ks.no_duplicates() && ks.to_set() == t.dom() && forall|i: int|
            0 <= i < s.len() ==> s[i] == t[#[trigger] ks[i]]
}

/// `DashMap::iter`, each value copied out: every key's value once, in the
/// order of the map's shards.
#[verifier::external_body]
fn entity_table_values(m: &DashMap<u64, Entity>) -> (r: Vec<Entity>)
    ensures
        lists_values(entity_table(*m), r@.map_values(|e: Entity| e@)),
{
    m.iter().map(|e| copy_entity(e.value())).collect()
}

// ---------------------------------------------------------------------
// Edges
// ---------------------------------------------------------------------

/// The pheromone level of a new edge: the bits of the `f32` value 1.0.
pub const PHEROMONE_INITIAL_BITS: u32 = 0x3F80_0000;

/// Edge (directed relationship). Its pheromone level is an `f32` held by
/// its bits (`f32::to_bits`); times are milliseconds since the Unix epoch.
#[derive(Debug)]
pub struct Edge {
    pub id: EdgeId,
    pub source: EntityId,
    pub target: EntityId,
    pub edge_type: String,
    pub properties: Properties,
    pub pheromone_bits: u32,
    pub traversal_count: u64,
    pub avg_latency_ns: u64,
    pub created_at: u64,
    pub last_traversed: u64,
}

/// An edge with its texts as characters and its properties as entries.
pub struct EdgeView {
    pub id: u64,
    pub source: u64,
    pub target: u64,
    pub edge_type: Seq<char>,
    pub properties: Seq<(Seq<char>, ValueView)>,
    pub pheromone_bits: u32,
    pub traversal_count: u64,
    pub avg_latency_ns: u64,
    pub created_at: u64,
    pub last_traversed: u64,
}

impl View for Edge {
    type V = EdgeView;

    open spec fn view(&self) -> EdgeView {
        EdgeView {
            id: self.id.0,
            source: self.source.0,
            target: self.target.0,
            edge_type: self.edge_type@,
            properties: self.properties.entries_spec(),
            pheromone_bits: self.pheromone_bits,
            traversal_count: self.traversal_count,
            avg_latency_ns: self.avg_latency_ns,
            created_at: self.created_at,
            last_traversed: self.last_traversed,
        }
    }
}

/// A copy of an edge.
pub fn copy_edge(e: &Edge) -> (r: Edge)
    ensures
        r@ == e@,
{
    Edge {
        id: e.id,
        source: e.source,
        target: e.target,
        edge_type: e.edge_type.clone(),
        properties: e.properties.copy(),
        pheromone_bits: e.pheromone_bits,
        traversal_count: e.traversal_count,
        avg_latency_ns: e.avg_latency_ns,
        created_at: e.created_at,
        last_traversed: e.last_traversed,
    }
}

impl Edge {
    /// A new edge with the initial pheromone level, never traversed,
    /// created and last traversed now.
    pub fn new(id: EdgeId, source: EntityId, target: EntityId, edge_type: String, properties: Properties) -> (r: Self)
        ensures
            r.id == id,
            r.source == source,
            r.target == target,
            r.edge_type@ == edge_type@,
            r.properties.entries_spec() == properties.entries_spec(),
            r.pheromone_bits == PHEROMONE_INITIAL_BITS,
            r.traversal_count == 0,
            r.avg_latency_ns == 0,
            r.last_traversed == r.created_at,
    {
        let now = current_millis();
        Edge {
            id,
            source,
            target,
            edge_type,
            properties,
            pheromone_bits: PHEROMONE_INITIAL_BITS,
            traversal_count: 0,
            avg_latency_ns: 0,
            created_at: now,
            last_traversed: now,
        }
    }
}

/// What an edge table holds: edges by the number of their ID.
pub uninterp spec fn edge_table(m: DashMap<u64, Edge>) -> Map<u64, EdgeView>;

/// `DashMap::new`: a map that holds nothing.
#[verifier::external_body]
fn new_edge_table() -> (r: DashMap<u64, Edge>)
    ensures
        edge_table(r).dom() == Set::<u64>::empty(),
{
    DashMap::new()
}

/// `DashMap::insert`: afterwards the key holds the value and every other
/// key what it held.
#[verifier::external_body]
fn edge_table_insert(m: &mut DashMap<u64, Edge>, k: u64, v: Edge)
    ensures
        edge_table(*final(m)) == edge_table(*old(m)).insert(k, v@),
{
    m.insert(k, v);
}

/// `DashMap::get`, with the value found copied out.
#[verifier::external_body]
fn edge_table_get(m: &DashMap<u64, Edge>, k: u64) -> (r: Option<Edge>)
    ensures
        match edge_table(*m).get(k) {
            Some(e) => r matches Some(x) && x@ == e,
            None => r is None,
        },
{
    m.get(&k).map(|e| copy_edge(e.value()))
}

/// `DashMap::len`: the number of keys.
#[verifier::external_body]
fn edge_table_len(m: &DashMap<u64, Edge>) -> (r: usize)
    ensures
        r == edge_table(*m).len(),
{
    m.len()
}

/// `DashMap::iter`, each value copied out: every key's value once, in the
/// order of the map's shards.
#[verifier::external_body]
fn edge_table_values(m: &DashMap<u64, Edge>) -> (r: Vec<Edge>)
    ensures
        lists_values(edge_table(*m), r@.map_values(|e: Edge| e@)),
{
    m.iter().map(|e| copy_edge(e.value())).collect()
}

// ---------------------------------------------------------------------
// Adjacency: for each entity, its edges in the order they were added,
// each with its type, the entity at its other end, and its ID.
// ---------------------------------------------------------------------

/// A link as the edge's type, the other end's ID number and the edge's.
pub open spec fn link_view(l: (String, EntityId, EdgeId)) -> (Seq<char>, u64, u64) {
    (l.0@, l.1.0, l.2.0)
}

/// A list of links as plain values.
pub open spec fn links_view(v: Seq<(String, EntityId, EdgeId)>) -> Seq<(Seq<char>, u64, u64)> {
    v.map_values(|l: (String, EntityId, EdgeId)| link_view(l))
}

/// A copy of a list of links.
fn copy_links(v: &Vec<(String, EntityId, EdgeId)>) -> (r: Vec<(String, EntityId, EdgeId)>)
    ensures
        links_view(r@) == links_view(v@),
{
    let mut r: Vec<(String, EntityId, EdgeId)> = Vec::new();
    let mut i: usize = 0;
    while i < v.len()
        invariant
            i <= v.len(),
            r@.len() == i,
            forall|j: int| 0 <= j < i ==> link_view(#[trigger] r@[j]) == link_view(v@[j]),
        decreases v.len() - i,
    {
        let l = &v[i];
        let name = l.0.clone();
        r.push((name, l.1, l.2));
        i = i + 1;
    }
    assert(links_view(r@) =~= links_view(v@));
    r
}

/// What a link table holds: the links of each entity, by the number of its
/// ID.
pub uninterp spec fn link_table(m: DashMap<u64, Vec<(String, EntityId, EdgeId)>>) -> Map<
    u64,
    Seq<(Seq<char>, u64, u64)>,
>;

/// `DashMap::new`: a map that holds nothing.
#[verifier::external_body]
fn new_link_table() -> (r: DashMap<u64, Vec<(String, EntityId, EdgeId)>>)
    ensures
        link_table(r).dom() == Set::<u64>::empty(),
{
    DashMap::new()
}

/// `DashMap::insert`: afterwards the key holds the value and every other
/// key what it held.
#[verifier::external_body]
fn link_table_insert(m: &mut DashMap<u64, Vec<(String, EntityId, EdgeId)>>, k: u64, v: Vec<(String, EntityId, EdgeId)>)
    ensures
        link_table(*final(m)) == link_table(*old(m)).insert(k, links_view(v@)),
{
    m.insert(k, v);
}

/// `DashMap::get`, with the list found copied out.
#[verifier::external_body]
fn link_table_get(m: &DashMap<u64, Vec<(String, EntityId, EdgeId)>>, k: u64) -> (r: Option<Vec<(String, EntityId, EdgeId)>>)
    ensures
        match link_table(*m).get(k) {
            Some(l) => r matches Some(x) && links_view(x@) == l,
            None => r is None,
        },
{
    m.get(&k).map(|l| copy_links(l.value()))
}

// ---------------------------------------------------------------------
// Collections: the IDs of the entities of each type, in the order added.
// ---------------------------------------------------------------------

/// A list of entity IDs as their numbers.
pub open spec fn ids_view(v: Seq<EntityId>) -> Seq<u64> {
    v.map_values(|e: EntityId| e.0)
}

/// A copy of a list of entity IDs.
fn copy_entity_ids(v: &Vec<EntityId>) -> (r: Vec<EntityId>)
    ensures
        r@ == v@,
{
    let mut r: Vec<EntityId> = Vec::new();
    let mut i: usize = 0;
    while i < v.len()
        invariant
            i <= v.len(),
            r@ == v@.subrange(0, i as int),
        decreases v.len() - i,
    {
        r.push(v[i]);
        i = i + 1;
    }
    assert(r@ =~= v@);
    r
}

/// What a collection table holds: the entity IDs of each type.
pub uninterp spec fn collection_table(m: DashMap<String, Vec<EntityId>>) -> Map<Seq<char>, Seq<u64>>;

/// `DashMap::new`: a map that holds nothing.
#[verifier::external_body]
fn new_collection_table() -> (r: DashMap<String, Vec<EntityId>>)
    ensures
        collection_table(r).dom() == Set::<Seq<char>>::empty(),
{
    DashMap::new()
}

/// `DashMap::insert`: afterwards the key holds the value and every other
/// key what it held.
#[verifier::external_body]
fn collection_table_insert(m: &mut DashMap<String, Vec<EntityId>>, k: String, v: Vec<EntityId>)
    ensures
        collection_table(*final(m)) == collection_table(*old(m)).insert(k@, ids_view(v@)),
{
    m.insert(k, v);
}

/// `DashMap::get`, with the list found copied out.
#[verifier::external_body]
fn collection_table_get(m: &DashMap<String, Vec<EntityId>>, k: &str) -> (r: Option<Vec<EntityId>>)
    ensures
        match collection_table(*m).get(k@) {
            Some(l) => r matches Some(x) && ids_view(x@) == l,
            None => r is None,
        },
{
    m.get(k).map(|l| copy_entity_ids(l.value()))
}

/// `DashMap::len`: the number of keys.
#[verifier::external_body]
fn collection_table_len(m: &DashMap<String, Vec<EntityId>>) -> (r: usize)
    ensures
        r == collection_table(*m).len(),
{
    m.len()
}

// ---------------------------------------------------------------------
// The graph
// ---------------------------------------------------------------------

/// The links of an entity, none where it has no list.
pub open spec fn links_of(t: Map<u64, Seq<(Seq<char>, u64, u64)>>, id: u64) -> Seq<(Seq<char>, u64, u64)> {
    if t.contains_key(id) {
        t[id]
    } else {
        Seq::empty()
    }
}

/// The IDs of a collection, none where there is no such collection.
pub open spec fn ids_of(t: Map<Seq<char>, Seq<u64>>, ty: Seq<char>) -> Seq<u64> {
    if t.contains_key(ty) {
        t[ty]
    } else {
        Seq::empty()
    }
}

/// The (other end, edge) pairs of the links of the given type, or of all
/// links, in the order of the links.
pub open spec fn neighbors(links: Seq<(Seq<char>, u64, u64)>, edge_type: Option<Seq<char>>) -> Seq<(u64, u64)>
    decreases links.len(),
{
    if links.len() == 0 {
        Seq::empty()
    } else {
        let rest = neighbors(links.drop_last(), edge_type);
        let l = links.last();
        if edge_type is None || edge_type == Some(l.0) {
            rest.push((l.1, l.2))
        } else {
            rest
        }
    }
}

/// A list of (entity, edge) pairs as their numbers.
pub open spec fn pairs_view(v: Seq<(EntityId, EdgeId)>) -> Seq<(u64, u64)> {
    v.map_values(|p: (EntityId, EdgeId)| (p.0.0, p.1.0))
}

/// The IDs of `ids` whose entities are in `t`, in order.
pub open spec fn present_ids(ids: Seq<u64>, t: Map<u64, EntityView>) -> Seq<u64>
    decreases ids.len(),
{
    if ids.len() == 0 {
        Seq::empty()
    } else {
        let rest = present_ids(ids.drop_last(), t);
        if t.contains_key(ids.last()) {
            rest.push(ids.last())
        } else {
            rest
        }
    }
}

/// `x` is what a read of the stored entity `e` hands out: the same entity
/// with one more read counted.
pub open spec fn read_of(x: EntityView, e: EntityView) -> bool {
    &&& x.id == e.id
    &&& x.entity_type == e.entity_type
    &&& x.properties == e.properties
    &&& x.access_count == e.access_count + 1
    &&& x.created_at == e.created_at
}

/// The next value of an ID counter: one more, wrapping at the top.
pub open spec fn next_id(n: u64) -> u64 {
    if n == u64::MAX {
        0
    } else {
        (n + 1) as u64
    }
}

/// Graph statistics: how many entities, edges and collections there are.
#[derive(Debug, Clone, Copy)]
pub struct GraphStats {
    pub entity_count: usize,
    pub edge_count: usize,
    pub collection_count: usize,
}

/// The in-memory graph.
pub struct Graph {
    entities: DashMap<u64, Entity>,
    edges: DashMap<u64, Edge>,
    outgoing: DashMap<u64, Vec<(String, EntityId, EdgeId)>>,
    incoming: DashMap<u64, Vec<(String, EntityId, EdgeId)>>,
    collections: DashMap<String, Vec<EntityId>>,
    next_entity_id: u64,
    next_edge_id: u64,
}

impl Graph {
    /// The entities by the number of their ID.
    pub closed spec fn entities_spec(&self) -> Map<u64, EntityView> {
        entity_table(self.entities)
    }

    /// The edges by the number of their ID.
    pub closed spec fn edges_spec(&self) -> Map<u64, EdgeView> {
        edge_table(self.edges)
    }

    /// For each entity with a list, the edges that leave it.
    pub closed spec fn outgoing_spec(&self) -> Map<u64, Seq<(Seq<char>, u64, u64)>> {
        link_table(self.outgoing)
    }

    /// For each entity with a list, the edges that reach it.
    pub closed spec fn incoming_spec(&self) -> Map<u64, Seq<(Seq<char>, u64, u64)>> {
        link_table(self.incoming)
    }

    /// The entity IDs of each collection, in the order added.
    pub closed spec fn collections_spec(&self) -> Map<Seq<char>, Seq<u64>> {
        collection_table(self.collections)
    }

    /// The ID the next new entity gets.
    pub closed spec fn next_entity_spec(&self) -> u64 {
        self.next_entity_id
    }

    /// The ID the next new edge gets.
    pub closed spec fn next_edge_spec(&self) -> u64 {
        self.next_edge_id
    }

    /// Every stored entity is stored under its own ID and can be read once
    /// more without its read count overflowing, and finitely many entities
    /// have outgoing links.
    pub open spec fn wf(&self) -> bool {
        &&& forall|k: u64| #[trigger] self.entities_spec().contains_key(k) ==> self.entities_spec()[k].access_count < u64::MAX
            && self.entities_spec()[k].id == k
        &&& self.outgoing_spec().dom().finite()
    }

    /// An empty graph; the first entity and the first edge get ID 1.
    pub fn new() -> (r: Self)
        ensures
            r.wf(),
            r.entities_spec().dom() == Set::<u64>::empty(),
            r.edges_spec().dom() == Set::<u64>::empty(),
            r.outgoing_spec().dom() == Set::<u64>::empty(),
            r.incoming_spec().dom() == Set::<u64>::empty(),
            r.collections_spec().dom() == Set::<Seq<char>>::empty(),
            r.next_entity_spec() == 1,
            r.next_edge_spec() == 1,
    {
        Graph {
            entities: new_entity_table(),
            edges: new_edge_table(),
            outgoing: new_link_table(),
            incoming: new_link_table(),
            collections: new_collection_table(),
            next_entity_id: 1,
            next_edge_id: 1,
        }
    }

    /// Add a new entity with the next ID: it joins its collection, and
    /// its lists of links start empty.
    pub fn add_entity(&mut self, entity_type: String, properties: Properties) -> (r: EntityId)
        requires
            old(self).wf(),
        ensures
            final(self).wf(),
            r.0 == old(self).next_entity_spec(),
            final(self).next_entity_spec() == next_id(old(self).next_entity_spec()),
            final(self).entities_spec().dom() == old(self).entities_spec().dom().insert(r.0),
            forall|k: u64| k != r.0 && #[trigger] old(self).entities_spec().contains_key(k) ==> final(self).entities_spec()[k] == old(self).entities_spec()[k],
            final(self).entities_spec()[r.0].id == r.0,
            final(self).entities_spec()[r.0].entity_type == entity_type@,
            final(self).entities_spec()[r.0].properties == properties.entries_spec(),
            final(self).entities_spec()[r.0].access_count == 0,
            final(self).entities_spec()[r.0].last_accessed == final(self).entities_spec()[r.0].created_at,
            final(self).collections_spec() == old(self).collections_spec().insert(
                entity_type@,
                ids_of(old(self).collections_spec(), entity_type@).push(r.0),
            ),
            final(self).outgoing_spec() == old(self).outgoing_spec().insert(r.0, Seq::empty()),
            final(self).incoming_spec() == old(self).incoming_spec().insert(r.0, Seq::empty()),
            final(self).edges_spec() == old(self).edges_spec(),
            final(self).next_edge_spec() == old(self).next_edge_spec(),
    {
        let id = EntityId::new(self.next_entity_id);
        self.next_entity_id = self.next_entity_id.wrapping_add(1);
        let name = entity_type.clone();
        let entity = Entity::new(id, entity_type, properties);
        entity_table_insert(&mut self.entities, id.0, entity);
        let ghost after = entity_table(self.entities);
        let mut members = match collection_table_get(&self.collections, name.as_str()) {
            Some(v) => v,
            None => Vec::new(),
        };
        proof {
            assert(ids_view(members@) == ids_of(old(self).collections_spec(), name@));
        }
        members.push(id);
        proof {
            assert(ids_view(members@) =~= ids_of(old(self).collections_spec(), name@).push(id.0));
        }
        collection_table_insert(&mut self.collections, name, members);
        let out: Vec<(String, EntityId, EdgeId)> = Vec::new();
        let inc: Vec<(String, EntityId, EdgeId)> = Vec::new();
        proof {
            assert(links_view(out@) =~= Seq::<(Seq<char>, u64, u64)>::empty());
            assert(links_view(inc@) =~= Seq::<(Seq<char>, u64, u64)>::empty());
        }
        link_table_insert(&mut self.outgoing, id.0, out);
        link_table_insert(&mut self.incoming, id.0, inc);
        proof {
            assert(self.entities_spec() == after);
            assert forall|k: u64| #[trigger] self.entities_spec().contains_key(k) implies self.entities_spec()[k].access_count
                < u64::MAX && self.entities_spec()[k].id == k by {
                if k != id.0 {
                    assert(old(self).entities_spec().contains_key(k));
                    assert(old(self).entities_spec()[k].access_count < u64::MAX);
                    assert(old(self).entities_spec()[k].id == k);
                }
            }
        }
        id
    }

    /// The entity with this ID, copied out with one more read counted and
    /// the time of the read.
    pub fn get_entity(&self, id: EntityId) -> (r: Option<Entity>)
        requires
            self.wf(),
        ensures
            match self.entities_spec().get(id.0) {
                Some(e) => r matches Some(x) && read_of(x@, e),
                None => r is None,
            },
    {
        match entity_table_get(&self.entities, id.0) {
            Some(mut e) => {
                assert(self.entities_spec().contains_key(id.0));
                e.mark_accessed();
                Some(e)
            },
            None => None,
        }
    }

    /// Add an edge with the next ID from `source` to `target`, where both
    /// entities exist; it joins the outgoing links of its source and the
    /// incoming links of its target. `None`, and nothing changed, where
    /// either is missing.
    pub fn add_edge(&mut self, source: EntityId, target: EntityId, edge_type: String, properties: Properties) -> (r: Option<EdgeId>)
        requires
            old(self).wf(),
            old(self).entities_spec().contains_key(source.0) && old(self).entities_spec().contains_key(target.0)
                ==> old(self).outgoing_spec().contains_key(source.0) && old(self).incoming_spec().contains_key(
                target.0,
            ),
        ensures
            final(self).wf(),
            !(old(self).entities_spec().contains_key(source.0) && old(self).entities_spec().contains_key(target.0))
                ==> r is None && *final(self) == *old(self),
            old(self).entities_spec().contains_key(source.0) && old(self).entities_spec().contains_key(target.0) ==> {
                &&& r matches Some(id) && id.0 == old(self).next_edge_spec()
                &&& final(self).next_edge_spec() == next_id(old(self).next_edge_spec())
                &&& final(self).edges_spec().dom() == old(self).edges_spec().dom().insert(r.unwrap().0)
                &&& forall|k: u64| k != r.unwrap().0 && #[trigger] old(self).edges_spec().contains_key(k) ==> final(self).edges_spec()[k] == old(self).edges_spec()[k]
                &&& final(self).edges_spec()[r.unwrap().0].id == r.unwrap().0
                &&& final(self).edges_spec()[r.unwrap().0].source == source.0
                &&& final(self).edges_spec()[r.unwrap().0].target == target.0
                &&& final(self).edges_spec()[r.unwrap().0].edge_type == edge_type@
                &&& final(self).edges_spec()[r.unwrap().0].properties == properties.entries_spec()
                &&& final(self).edges_spec()[r.unwrap().0].pheromone_bits == PHEROMONE_INITIAL_BITS
                &&& final(self).edges_spec()[r.unwrap().0].traversal_count == 0
                &&& final(self).outgoing_spec() == old(self).outgoing_spec().insert(
                    source.0,
                    old(self).outgoing_spec()[source.0].push((edge_type@, target.0, r.unwrap().0)),
                )
                &&& final(self).incoming_spec() == old(self).incoming_spec().insert(
                    target.0,
                    old(self).incoming_spec()[target.0].push((edge_type@, source.0, r.unwrap().0)),
                )
                &&& final(self).entities_spec() == old(self).entities_spec()
                &&& final(self).collections_spec() == old(self).collections_spec()
                &&& final(self).next_entity_spec() == old(self).next_entity_spec()
            },
    {
        if !entity_table_contains(&self.entities, source.0) || !entity_table_contains(&self.entities, target.0) {
            return None;
        }
        let id = EdgeId::new(self.next_edge_id);
        self.next_edge_id = self.next_edge_id.wrapping_add(1);
        let out_name = edge_type.clone();
        let in_name = edge_type.clone();
        let edge = Edge::new(id, source, target, edge_type, properties);
        edge_table_insert(&mut self.edges, id.0, edge);
        let mut out = link_table_get(&self.outgoing, source.0).unwrap();
        let ghost out_before = links_view(out@);
        out.push((out_name, target, id));
        proof {
            assert(links_view(out@) =~= out_before.push((edge_type@, target.0, id.0)));
        }
        link_table_insert(&mut self.outgoing, source.0, out);
        let mut inc = link_table_get(&self.incoming, target.0).unwrap();
        let ghost inc_before = links_view(inc@);
        inc.push((in_name, source, id));
        proof {
            assert(links_view(inc@) =~= inc_before.push((edge_type@, source.0, id.0)));
        }
        link_table_insert(&mut self.incoming, target.0, inc);
        Some(id)
    }

    /// The edge with this ID, copied out.
    pub fn get_edge(&self, id: EdgeId) -> (r: Option<Edge>)
        ensures
            match self.edges_spec().get(id.0) {
                Some(e) => r matches Some(x) && x@ == e,
                None => r is None,
            },
    {
        edge_table_get(&self.edges, id.0)
    }

    /// The (entity, edge) pairs of a list of links, of one type or of all.
    fn select_links(links: &Vec<(String, EntityId, EdgeId)>, edge_type: Option<&str>) -> (r: Vec<(EntityId, EdgeId)>)
        ensures
            pairs_view(r@) == neighbors(
                links_view(links@),
                match edge_type {
                    Some(t) => Some(t@),
                    None => None,
                },
            ),
    {
        let ghost ty = match edge_type {
            Some(t) => Some(t@),
            None => None,
        };
        let ghost all = links_view(links@);
        let mut r: Vec<(EntityId, EdgeId)> = Vec::new();
        let mut i: usize = 0;
        while i < links.len()
            invariant
                i <= links.len(),
                all == links_view(links@),
                ty == match edge_type {
                    Some(t) => Some(t@),
                    None => None,
                },
                pairs_view(r@) == neighbors(all.subrange(0, i as int), ty),
            decreases links.len() - i,
        {
            let l = &links[i];
            let keep = match edge_type {
                Some(t) => crate::text::str_equal(l.0.as_str(), t),
                None => true,
            };
            let ghost before = pairs_view(r@);
            proof {
                assert(all.subrange(0, i + 1).drop_last() =~= all.subrange(0, i as int));
                assert(all.subrange(0, i + 1).last() == all[i as int]);
                assert(all[i as int] == link_view(links@[i as int]));
                match edge_type {
                    Some(t) => {
                        assert(ty == Some(t@));
                        assert(keep == (l.0@ == t@));
                        assert(all[i as int].0 == l.0@);
                    },
                    None => {},
                }
                assert(keep == (ty is None || ty == Some(all[i as int].0)));
            }
            if keep {
                r.push((l.1, l.2));
                assert(pairs_view(r@) =~= before.push((l.1.0, l.2.0)));
            }
            assert(pairs_view(r@) == neighbors(all.subrange(0, i + 1), ty));
            i = i + 1;
        }
        assert(all.subrange(0, links.len() as int) =~= all);
        r
    }

    /// The entities reached by the edges that leave `entity_id` (of the
    /// given type, or of any), with those edges, in the order they were
    /// added.
    pub fn get_outgoing_neighbors(&self, entity_id: EntityId, edge_type: Option<&str>) -> (r: Vec<(EntityId, EdgeId)>)
        ensures
            pairs_view(r@) == neighbors(
                links_of(self.outgoing_spec(), entity_id.0),
                match edge_type {
                    Some(t) => Some(t@),
                    None => None,
                },
            ),
    {
        match link_table_get(&self.outgoing, entity_id.0) {
            Some(links) => Self::select_links(&links, edge_type),
            None => {
                let r: Vec<(EntityId, EdgeId)> = Vec::new();
                assert(pairs_view(r@) =~= Seq::<(u64, u64)>::empty());
                r
            },
        }
    }

    /// The entities from which edges reach `entity_id` (of the given type,
    /// or of any), with those edges, in the order they were added.
    pub fn get_incoming_neighbors(&self, entity_id: EntityId, edge_type: Option<&str>) -> (r: Vec<(EntityId, EdgeId)>)
        ensures
            pairs_view(r@) == neighbors(
                links_of(self.incoming_spec(), entity_id.0),
                match edge_type {
                    Some(t) => Some(t@),
                    None => None,
                },
            ),
    {
        match link_table_get(&self.incoming, entity_id.0) {
            Some(links) => Self::select_links(&links, edge_type),
            None => {
                let r: Vec<(EntityId, EdgeId)> = Vec::new();
                assert(pairs_view(r@) =~= Seq::<(u64, u64)>::empty());
                r
            },
        }
    }

    /// The entities of a collection, in the order they joined it, each
    /// read as `get_entity` reads it.
    pub fn scan_collection(&self, entity_type: &str) -> (r: Vec<Entity>)
        requires
            self.wf(),
        ensures
            r@.len() == present_ids(ids_of(self.collections_spec(), entity_type@), self.entities_spec()).len(),
            forall|i: int|
                0 <= i < r@.len() ==> read_of(
                    #[trigger] r@[i]@,
                    self.entities_spec()[present_ids(ids_of(self.collections_spec(), entity_type@), self.entities_spec())[i]],
                ),
    {
        let ids = match collection_table_get(&self.collections, entity_type) {
            Some(v) => v,
            None => {
                let v: Vec<EntityId> = Vec::new();
                assert(ids_view(v@) =~= Seq::<u64>::empty());
                v
            },
        };
        let ghost all = ids_view(ids@);
        let ghost t = self.entities_spec();
        let mut r: Vec<Entity> = Vec::new();
        let mut i: usize = 0;
        while i < ids.len()
            invariant
                i <= ids.len(),
                all == ids_view(ids@),
                t == self.entities_spec(),
                self.wf(),
                r@.len() == present_ids(all.subrange(0, i as int), t).len(),
                forall|j: int|
                    0 <= j < r@.len() ==> read_of(#[trigger] r@[j]@, t[present_ids(all.subrange(0, i as int), t)[j]]),
            decreases ids.len() - i,
        {
            let ghost before = present_ids(all.subrange(0, i as int), t);
            proof {
                assert(all.subrange(0, i + 1).drop_last() =~= all.subrange(0, i as int));
                assert(all.subrange(0, i + 1).last() == ids@[i as int].0);
            }
            match self.get_entity(ids[i]) {
                Some(e) => {
                    assert(present_ids(all.subrange(0, i + 1), t) == before.push(ids@[i as int].0));
                    r.push(e);
                },
                None => {
                    assert(present_ids(all.subrange(0, i + 1), t) == before);
                },
            }
            i = i + 1;
        }
        assert(all.subrange(0, ids.len() as int) =~= all);
        r
    }

    /// How many entities, edges and collections the graph holds.
    pub fn stats(&self) -> (r: GraphStats)
        ensures
            r.entity_count == self.entities_spec().len(),
            r.edge_count == self.edges_spec().len(),
            r.collection_count == self.collections_spec().len(),
    {
        GraphStats {
            entity_count: entity_table_len(&self.entities),
            edge_count: edge_table_len(&self.edges),
            collection_count: collection_table_len(&self.collections),
        }
    }

    /// Every entity once, as stored, in no particular order.
    pub fn get_all_entities(&self) -> (r: Vec<Entity>)
        ensures
            lists_values(self.entities_spec(), r@.map_values(|e: Entity| e@)),
    {
        entity_table_values(&self.entities)
    }

    /// Every edge once, as stored, in no particular order.
    pub fn get_all_edges(&self) -> (r: Vec<Edge>)
        ensures
            lists_values(self.edges_spec(), r@.map_values(|e: Edge| e@)),
    {
        edge_table_values(&self.edges)
    }

    /// Put an entity back under its own ID (as a restore does): it joins
    /// its collection unless already there, and new entities get IDs above
    /// it. Its lists of links are left as they are.
    pub fn insert_entity_with_id(&mut self, entity: Entity)
        requires
            old(self).wf(),
            entity.id.0 < u64::MAX,
            entity.access_count < u64::MAX,
        ensures
            final(self).wf(),
            final(self).entities_spec() == old(self).entities_spec().insert(entity.id.0, entity@),
            final(self).collections_spec() == old(self).collections_spec().insert(
                entity.entity_type@,
                if ids_of(old(self).collections_spec(), entity.entity_type@).contains(entity.id.0) {
                    ids_of(old(self).collections_spec(), entity.entity_type@)
                } else {
                    ids_of(old(self).collections_spec(), entity.entity_type@).push(entity.id.0)
                },
            ),
            final(self).next_entity_spec() == if entity.id.0 >= old(self).next_entity_spec() {
                (entity.id.0 + 1) as u64
            } else {
                old(self).next_entity_spec()
            },
            final(self).edges_spec() == old(self).edges_spec(),
            final(self).outgoing_spec() == old(self).outgoing_spec(),
            final(self).incoming_spec() == old(self).incoming_spec(),
            final(self).next_edge_spec() == old(self).next_edge_spec(),
    {
        let id = entity.id;
        let name = entity.entity_type.clone();
        let ghost ev = entity@;
        entity_table_insert(&mut self.entities, id.0, entity);
        let ghost after = entity_table(self.entities);
        let mut members = match collection_table_get(&self.collections, name.as_str()) {
            Some(v) => v,
            None => {
                let v: Vec<EntityId> = Vec::new();
                assert(ids_view(v@) =~= Seq::<u64>::empty());
                v
            },
        };
        let ghost before = ids_view(members@);
        let mut found = false;
        let mut i: usize = 0;
        while i < members.len()
            invariant
                i <= members.len(),
                before == ids_view(members@),
                found ==> before.contains(id.0),
                !found ==> forall|j: int| 0 <= j < i ==> before[j] != id.0,
            decreases members.len() - i,
        {
            assert(before[i as int] == members@[i as int].0);
            if members[i].0 == id.0 {
                found = true;
            }
            i = i + 1;
        }
        proof {
            assert(found == before.contains(id.0));
        }
        if !found {
            members.push(id);
            assert(ids_view(members@) =~= before.push(id.0));
        }
        collection_table_insert(&mut self.collections, name, members);
        if id.0 >= self.next_entity_id {
            self.next_entity_id = id.0 + 1;
        }
        proof {
            assert(self.entities_spec() == after);
            assert forall|k: u64| #[trigger] self.entities_spec().contains_key(k) implies self.entities_spec()[k].access_count
                < u64::MAX && self.entities_spec()[k].id == k by {
                if k != id.0 {
                    assert(old(self).entities_spec().contains_key(k));
                    assert(old(self).entities_spec()[k].access_count < u64::MAX);
                    assert(old(self).entities_spec()[k].id == k);
                }
            }
        }
    }

    /// Put an edge back under its own ID (as a restore does): it joins the
    /// outgoing links of its source and the incoming links of its target,
    /// whose lists are made where missing, and new edges get IDs above it.
    pub fn insert_edge_with_id(&mut self, edge: Edge)
        requires
            old(self).wf(),
            edge.id.0 < u64::MAX,
        ensures
            final(self).wf(),
            final(self).edges_spec() == old(self).edges_spec().insert(edge.id.0, edge@),
            final(self).outgoing_spec() == old(self).outgoing_spec().insert(
                edge.source.0,
                links_of(old(self).outgoing_spec(), edge.source.0).push((edge.edge_type@, edge.target.0, edge.id.0)),
            ),
            final(self).incoming_spec() == old(self).incoming_spec().insert(
                edge.target.0,
                links_of(old(self).incoming_spec(), edge.target.0).push((edge.edge_type@, edge.source.0, edge.id.0)),
            ),
            final(self).next_edge_spec() == if edge.id.0 >= old(self).next_edge_spec() {
                (edge.id.0 + 1) as u64
            } else {
                old(self).next_edge_spec()
            },
            final(self).entities_spec() == old(self).entities_spec(),
            final(self).collections_spec() == old(self).collections_spec(),
            final(self).next_entity_spec() == old(self).next_entity_spec(),
    {
        let id = edge.id;
        let from = edge.source;
        let to = edge.target;
        let out_name = edge.edge_type.clone();
        let in_name = edge.edge_type.clone();
        let ghost ty = edge.edge_type@;
        edge_table_insert(&mut self.edges, id.0, edge);
        let mut out = match link_table_get(&self.outgoing, from.0) {
            Some(v) => v,
            None => {
                let v: Vec<(String, EntityId, EdgeId)> = Vec::new();
                assert(links_view(v@) =~= Seq::<(Seq<char>, u64, u64)>::empty());
                v
            },
        };
        let ghost out_before = links_view(out@);
        out.push((out_name, to, id));
        assert(links_view(out@) =~= out_before.push((ty, to.0, id.0)));
        link_table_insert(&mut self.outgoing, from.0, out);
        let mut inc = match link_table_get(&self.incoming, to.0) {
            Some(v) => v,
            None => {
                let v: Vec<(String, EntityId, EdgeId)> = Vec::new();
                assert(links_view(v@) =~= Seq::<(Seq<char>, u64, u64)>::empty());
                v
            },
        };
        let ghost inc_before = links_view(inc@);
        inc.push((in_name, from, id));
        assert(links_view(inc@) =~= inc_before.push((ty, from.0, id.0)));
        link_table_insert(&mut self.incoming, to.0, inc);
        if id.0 >= self.next_edge_id {
            self.next_edge_id = id.0 + 1;
        }
        proof {
            assert(self.entities_spec() == old(self).entities_spec());
            assert(self.outgoing_spec().dom() == old(self).outgoing_spec().dom().insert(from.0));
            assert forall|k: u64| #[trigger] self.entities_spec().contains_key(k) implies self.entities_spec()[k].access_count
                < u64::MAX && self.entities_spec()[k].id == k by {
                assert(old(self).entities_spec().contains_key(k));
            }
        }
    }

    /// Replace the record of an existing edge (its links stay as they
    /// are); `false`, and nothing changed, where no edge has its ID.
    pub fn replace_edge(&mut self, edge: Edge) -> (r: bool)
        requires
            old(self).wf(),
        ensures
            final(self).wf(),
            r == old(self).edges_spec().contains_key(edge.id.0),
            r ==> final(self).edges_spec() == old(self).edges_spec().insert(edge.id.0, edge@),
            !r ==> final(self).edges_spec() == old(self).edges_spec(),
            final(self).entities_spec() == old(self).entities_spec(),
            final(self).outgoing_spec() == old(self).outgoing_spec(),
            final(self).incoming_spec() == old(self).incoming_spec(),
            final(self).collections_spec() == old(self).collections_spec(),
            final(self).next_entity_spec() == old(self).next_entity_spec(),
            final(self).next_edge_spec() == old(self).next_edge_spec(),
    {
        match edge_table_get(&self.edges, edge.id.0) {
            Some(_) => {
                edge_table_insert(&mut self.edges, edge.id.0, edge);
                proof {
                    assert(self.entities_spec() == old(self).entities_spec());
                    assert(self.outgoing_spec() == old(self).outgoing_spec());
                    assert forall|k: u64| #[trigger] self.entities_spec().contains_key(k) implies self.entities_spec()[k].access_count
                        < u64::MAX && self.entities_spec()[k].id == k by {
                        assert(old(self).entities_spec().contains_key(k));
                    }
                }
                true
            },
            None => false,
        }
    }

    /// Create an entity: the same as `add_entity`.
    pub fn create_entity(&mut self, entity_type: String, properties: Properties) -> (r: EntityId)
        requires
            old(self).wf(),
        ensures
            final(self).wf(),
            r.0 == old(self).next_entity_spec(),
            final(self).next_entity_spec() == next_id(old(self).next_entity_spec()),
            final(self).entities_spec().dom() == old(self).entities_spec().dom().insert(r.0),
            forall|k: u64| k != r.0 && #[trigger] old(self).entities_spec().contains_key(k) ==> final(self).entities_spec()[k] == old(self).entities_spec()[k],
            final(self).entities_spec()[r.0].id == r.0,
            final(self).entities_spec()[r.0].entity_type == entity_type@,
            final(self).entities_spec()[r.0].properties == properties.entries_spec(),
            final(self).entities_spec()[r.0].access_count == 0,
            final(self).collections_spec() == old(self).collections_spec().insert(
                entity_type@,
                ids_of(old(self).collections_spec(), entity_type@).push(r.0),
            ),
            final(self).outgoing_spec() == old(self).outgoing_spec().insert(r.0, Seq::empty()),
            final(self).incoming_spec() == old(self).incoming_spec().insert(r.0, Seq::empty()),
            final(self).edges_spec() == old(self).edges_spec(),
            final(self).next_edge_spec() == old(self).next_edge_spec(),
    {
        self.add_entity(entity_type, properties)
    }
}

/// An edge added to an entity's links is its last neighbor among those of
/// its type and among all, and changes no list of another type.
pub proof fn law_new_edge_is_last_neighbor(
    links: Seq<(Seq<char>, u64, u64)>,
    edge_type: Seq<char>,
    other: u64,
    edge: u64,
    asked: Option<Seq<char>>,
)
    ensures
        neighbors(links.push((edge_type, other, edge)), asked) == if asked is None || asked == Some(edge_type) {
            neighbors(links, asked).push((other, edge))
        } else {
            neighbors(links, asked)
        },
{
    assert(links.push((edge_type, other, edge)).drop_last() =~= links);
}

/// Where every member of a collection is stored, a scan reads each member
/// once, in the order they joined.
pub proof fn law_scan_reads_every_member(ids: Seq<u64>, t: Map<u64, EntityView>)
    requires
        forall|i: int| 0 <= i < ids.len() ==> t.contains_key(#[trigger] ids[i]),
    ensures
        present_ids(ids, t) == ids,
    decreases ids.len(),
{
    if ids.len() > 0 {
        law_scan_reads_every_member(ids.drop_last(), t);
        assert(ids.drop_last().push(ids.last()) =~= ids);
    }
}

// ---------------------------------------------------------------------
// Restoring a graph
// ---------------------------------------------------------------------

/// The entity table after storing each entity in turn under its ID.
pub open spec fn entities_after(es: Seq<EntityView>) -> Map<u64, EntityView>
    decreases es.len(),
{
    if es.len() == 0 {
        Map::empty()
    } else {
        entities_after(es.drop_last()).insert(es.last().id, es.last())
    }
}

/// The edge table after storing each edge in turn under its ID.
pub open spec fn edges_after(es: Seq<EdgeView>) -> Map<u64, EdgeView>
    decreases es.len(),
{
    if es.len() == 0 {
        Map::empty()
    } else {
        edges_after(es.drop_last()).insert(es.last().id, es.last())
    }
}

/// A graph rebuilt from saved entities and edges, each put back under its
/// own ID in the order given: entities first, then edges.
pub fn restore_graph(entities: &Vec<Entity>, edges: &Vec<Edge>) -> (r: Graph)
    requires
        forall|i: int| 0 <= i < entities@.len() ==> (#[trigger] entities@[i]).id.0 < u64::MAX && entities@[i].access_count < u64::MAX,
        forall|i: int| 0 <= i < edges@.len() ==> (#[trigger] edges@[i]).id.0 < u64::MAX,
    ensures
        r.wf(),
        r.entities_spec() == entities_after(entities@.map_values(|e: Entity| e@)),
        r.edges_spec() == edges_after(edges@.map_values(|e: Edge| e@)),
{
    let mut g = Graph::new();
    let ghost ev = entities@.map_values(|e: Entity| e@);
    let ghost dv = edges@.map_values(|e: Edge| e@);
    proof {
        assert(g.entities_spec() =~= entities_after(ev.subrange(0, 0)));
        assert(g.edges_spec() =~= Map::<u64, EdgeView>::empty());
    }
    let mut i: usize = 0;
    while i < entities.len()
        invariant
            i <= entities@.len(),
            ev == entities@.map_values(|e: Entity| e@),
            forall|j: int| 0 <= j < entities@.len() ==> (#[trigger] entities@[j]).id.0 < u64::MAX && entities@[j].access_count < u64::MAX,
            g.wf(),
            g.entities_spec() == entities_after(ev.subrange(0, i as int)),
            g.edges_spec() == Map::<u64, EdgeView>::empty(),
        decreases entities.len() - i,
    {
        let e = copy_entity(&entities[i]);
        proof {
            assert(ev.subrange(0, i + 1).drop_last() =~= ev.subrange(0, i as int));
            assert(ev.subrange(0, i + 1).last() == entities@[i as int]@);
        }
        g.insert_entity_with_id(e);
        i = i + 1;
    }
    assert(ev.subrange(0, entities.len() as int) =~= ev);
    proof {
        assert(g.edges_spec() =~= edges_after(dv.subrange(0, 0)));
    }
    let mut k: usize = 0;
    while k < edges.len()
        invariant
            k <= edges@.len(),
            dv == edges@.map_values(|e: Edge| e@),
            forall|j: int| 0 <= j < edges@.len() ==> (#[trigger] edges@[j]).id.0 < u64::MAX,
            g.wf(),
            g.entities_spec() == entities_after(ev),
            g.edges_spec() == edges_after(dv.subrange(0, k as int)),
        decreases edges.len() - k,
    {
        let e = copy_edge(&edges[k]);
        proof {
            assert(dv.subrange(0, k + 1).drop_last() =~= dv.subrange(0, k as int));
            assert(dv.subrange(0, k + 1).last() == edges@[k as int]@);
        }
        g.insert_edge_with_id(e);
        k = k + 1;
    }
    assert(dv.subrange(0, edges.len() as int) =~= dv);
    g
}

} // verus!
