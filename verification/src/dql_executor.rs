//! The steps of plan execution that work on the graph and on bound
//! entities: which operations write, filtering a binding, and one hop of
//! a traversal. How a filter expression is evaluated on an entity is the
//! caller's test.

use vstd::prelude::*;
use crate::dql_ir::{Operation, TraverseDirection, Value, ValueView as IrValueView};
use crate::dql_lexer::{char_is_whitespace, is_whitespace};
use crate::text::{chars_of, concat2, str_equal, string_from_chars};
use crate::executor::{entity_views, kept, type_asked};
use crate::graph::{copy_entity, ids_of, links_of, neighbors, next_id, pairs_view, present_ids, read_of, Entity, Graph};
use crate::types::{Properties, PropertyValue, ValueView as TypesValueView};
use crate::btree::{chars_less, chars_lt};
use vstd::string::StringExecFns;
use crate::types::{EdgeId, EntityId};

verus! {

/// Whether an operation writes to the graph.
pub fn is_mutation(operation: &Operation) -> (r: bool)
    ensures
        r == (operation is InsertEntity || operation is UpdateEntities || operation is DeleteEntities
            || operation is CreateEdge),
{
    match operation {
        Operation::InsertEntity { .. } => true,
        Operation::UpdateEntities { .. } => true,
        Operation::DeleteEntities { .. } => true,
        Operation::CreateEdge { .. } => true,
        _ => false,
    }
}

/// The entities that `keep` accepts, in order, each tested once.
pub fn filter_entities<F: Fn(&Entity) -> bool>(entities: &Vec<Entity>, keep: F) -> (r: Vec<Entity>)
    requires
        forall|e: Entity| #[trigger] call_requires(keep, (&e,)),
    ensures
        exists|flags: Seq<bool>|
            {
                &&& flags.len() == entities@.len()
                &&& forall|i: int|
                    0 <= i < entities@.len() ==> call_ensures(keep, (&entities@[i],), #[trigger] flags[i])
                &&& entity_views(r@) == kept(entity_views(entities@), flags)
            },
{
    let ghost flags: Seq<bool> = Seq::empty();
    let mut r: Vec<Entity> = Vec::new();
    let mut i: usize = 0;
    while i < entities.len()
        invariant
            i <= entities.len(),
            flags.len() == i,
            forall|e: Entity| #[trigger] call_requires(keep, (&e,)),
            forall|j: int| 0 <= j < i ==> call_ensures(keep, (&entities@[j],), #[trigger] flags[j]),
            entity_views(r@) == kept(entity_views(entities@.subrange(0, i as int)), flags),
        decreases entities.len() - i,
    {
        let k = keep(&entities[i]);
        let ghost before = entity_views(r@);
        proof {
            let s1 = entity_views(entities@.subrange(0, i + 1));
            let f1 = flags.push(k);
            assert(s1.drop_last() =~= entity_views(entities@.subrange(0, i as int)));
            assert(f1.drop_last() =~= flags);
            assert(s1.last() == entities@[i as int]@);
        }
        if k {
            r.push(copy_entity(&entities[i]));
            assert(entity_views(r@) =~= before.push(entities@[i as int]@));
        }
        proof {
            flags = flags.push(k);
        }
        i = i + 1;
    }
    assert(entities@.subrange(0, entities.len() as int) =~= entities@);
    r
}

/// The entity ends of (entity, edge) pairs.
pub open spec fn target_ids(pairs: Seq<(u64, u64)>) -> Seq<u64> {
    pairs.map_values(|p: (u64, u64)| p.0)
}

/// The IDs one hop from `id` over edges of the given type (or of any):
/// along outgoing edges, along incoming ones, or outgoing then incoming.
pub open spec fn hop_targets(
    out: Map<u64, Seq<(Seq<char>, u64, u64)>>,
    inc: Map<u64, Seq<(Seq<char>, u64, u64)>>,
    direction: TraverseDirection,
    edge_type: Option<Seq<char>>,
    id: u64,
) -> Seq<u64> {
    match direction {
        TraverseDirection::Outgoing => target_ids(neighbors(links_of(out, id), edge_type)),
        TraverseDirection::Incoming => target_ids(neighbors(links_of(inc, id), edge_type)),
        TraverseDirection::Both => target_ids(neighbors(links_of(out, id), edge_type)) + target_ids(
            neighbors(links_of(inc, id), edge_type),
        ),
    }
}

/// The IDs one hop from each source in turn.
pub open spec fn all_hops(
    out: Map<u64, Seq<(Seq<char>, u64, u64)>>,
    inc: Map<u64, Seq<(Seq<char>, u64, u64)>>,
    direction: TraverseDirection,
    edge_type: Option<Seq<char>>,
    sources: Seq<u64>,
) -> Seq<u64>
    decreases sources.len(),
{
    if sources.len() == 0 {
        Seq::empty()
    } else {
        all_hops(out, inc, direction, edge_type, sources.drop_last()) + hop_targets(
            out,
            inc,
            direction,
            edge_type,
            sources.last(),
        )
    }
}

/// The IDs of a list of entities.
pub open spec fn source_ids(v: Seq<Entity>) -> Seq<u64> {
    v.map_values(|e: Entity| e.id.0)
}

/// One hop of a traversal: for each source in turn, each entity one hop
/// away in the given direction, over edges of the given type (or of any),
/// that is in the graph is read, and kept where `keep` accepts it.
pub fn traverse_step<F: Fn(&Entity) -> bool>(
    graph: &Graph,
    sources: &Vec<Entity>,
    direction: &TraverseDirection,
    edge_type: Option<&str>,
    keep: F,
) -> (r: Vec<Entity>)
    requires
        graph.wf(),
        forall|e: Entity| #[trigger] call_requires(keep, (&e,)),
    ensures
        exists|s: Seq<Entity>, flags: Seq<bool>|
            #![trigger kept(entity_views(s), flags)]
            {
                let ids = present_ids(
                    all_hops(
                        graph.outgoing_spec(),
                        graph.incoming_spec(),
                        *direction,
                        type_asked(edge_type),
                        source_ids(sources@),
                    ),
                    graph.entities_spec(),
                );
                &&& s.len() == ids.len()
                &&& flags.len() == s.len()
                &&& forall|i: int| 0 <= i < s.len() ==> read_of(#[trigger] s[i]@, graph.entities_spec()[ids[i]])
                &&& forall|i: int| 0 <= i < s.len() ==> call_ensures(keep, (&s[i],), #[trigger] flags[i])
                &&& entity_views(r@) == kept(entity_views(s), flags)
            },
{
    let ghost out = graph.outgoing_spec();
    let ghost inc = graph.incoming_spec();
    let ghost t = graph.entities_spec();
    let ghost ty = type_asked(edge_type);
    let ghost srcs = source_ids(sources@);
    let ghost mut s: Seq<Entity> = Seq::empty();
    let ghost mut flags: Seq<bool> = Seq::empty();
    let mut r: Vec<Entity> = Vec::new();
    let mut i: usize = 0;
    assert(srcs.take(0) =~= Seq::<u64>::empty());
    while i < sources.len()
        invariant
            graph.wf(),
            out == graph.outgoing_spec(),
            inc == graph.incoming_spec(),
            t == graph.entities_spec(),
            ty == type_asked(edge_type),
            srcs == source_ids(sources@),
            i <= sources.len(),
            forall|e: Entity| #[trigger] call_requires(keep, (&e,)),
            s.len() == present_ids(all_hops(out, inc, *direction, ty, srcs.take(i as int)), t).len(),
            flags.len() == s.len(),
            forall|k: int|
                0 <= k < s.len() ==> read_of(
                    #[trigger] s[k]@,
                    t[present_ids(all_hops(out, inc, *direction, ty, srcs.take(i as int)), t)[k]],
                ),
            forall|k: int| 0 <= k < s.len() ==> call_ensures(keep, (&s[k],), #[trigger] flags[k]),
            entity_views(r@) == kept(entity_views(s), flags),
        decreases sources.len() - i,
    {
        let id = sources[i].id;
        let ghost seen = all_hops(out, inc, *direction, ty, srcs.take(i as int));
        let nb: Vec<(EntityId, EdgeId)> = match direction {
            TraverseDirection::Outgoing => graph.get_outgoing_neighbors(id, edge_type),
            TraverseDirection::Incoming => graph.get_incoming_neighbors(id, edge_type),
            TraverseDirection::Both => {
                let mut all = graph.get_outgoing_neighbors(id, edge_type);
                let mut back = graph.get_incoming_neighbors(id, edge_type);
                let ghost a = all@;
                let ghost b = back@;
                all.append(&mut back);
                assert(pairs_view(all@) =~= pairs_view(a) + pairs_view(b));
                assert(target_ids(pairs_view(a) + pairs_view(b)) =~= target_ids(pairs_view(a)) + target_ids(
                    pairs_view(b),
                ));
                all
            },
        };
        let ghost hops = target_ids(pairs_view(nb@));
        assert(hops == hop_targets(out, inc, *direction, ty, id.0));
        let mut j: usize = 0;
        assert(seen + hops.take(0) =~= seen);
        while j < nb.len()
            invariant
                graph.wf(),
                t == graph.entities_spec(),
                hops == target_ids(pairs_view(nb@)),
                j <= nb.len(),
                forall|e: Entity| #[trigger] call_requires(keep, (&e,)),
                s.len() == present_ids(seen + hops.take(j as int), t).len(),
                flags.len() == s.len(),
                forall|k: int|
                    0 <= k < s.len() ==> read_of(#[trigger] s[k]@, t[present_ids(seen + hops.take(j as int), t)[k]]),
                forall|k: int| 0 <= k < s.len() ==> call_ensures(keep, (&s[k],), #[trigger] flags[k]),
                entity_views(r@) == kept(entity_views(s), flags),
            decreases nb.len() - j,
        {
            let x = nb[j].0;
            let ghost before_ids = seen + hops.take(j as int);
            let ghost after_ids = seen + hops.take(j + 1);
            proof {
                assert(hops[j as int] == x.0);
                assert(after_ids.drop_last() =~= before_ids);
                assert(after_ids.last() == x.0);
            }
            match graph.get_entity(x) {
                Some(e) => {
                    let k = keep(&e);
                    let ghost eg = e;
                    let ghost before = entity_views(r@);
                    proof {
                        let s1 = s.push(eg);
                        let f1 = flags.push(k);
                        assert(entity_views(s1).drop_last() =~= entity_views(s));
                        assert(f1.drop_last() =~= flags);
                        assert(entity_views(s1).last() == eg@);
                    }
                    if k {
                        r.push(e);
                        assert(entity_views(r@) =~= before.push(eg@));
                    }
                    proof {
                        s = s.push(eg);
                        flags = flags.push(k);
                    }
                },
                None => {},
            }
            j = j + 1;
        }
        proof {
            assert(hops.take(j as int) =~= hops);
            let next = srcs.take(i + 1);
            assert(next.drop_last() =~= srcs.take(i as int));
            assert(next.last() == id.0);
        }
        i = i + 1;
    }
    assert(srcs.take(i as int) =~= srcs);
    r
}

/// Keep the first `count` rows; all of them where there are no more.
pub fn limit_rows<T>(rows: &mut Vec<T>, count: usize)
    ensures
        final(rows)@ == if count <= old(rows)@.len() {
            old(rows)@.take(count as int)
        } else {
            old(rows)@
        },
{
    rows.truncate(count);
}

/// The rows after the first `count`; none where there are no more.
pub fn skip_rows<T>(rows: Vec<T>, count: usize) -> (r: Vec<T>)
    ensures
        r@ == if count <= rows@.len() {
            rows@.skip(count as int)
        } else {
            Seq::<T>::empty()
        },
{
    let mut rows = rows;
    let at = if count < rows.len() {
        count
    } else {
        rows.len()
    };
    rows.split_off(at)
}

/// Characters that are not whitespace.
pub open spec fn not_space() -> spec_fn(char) -> bool {
    |c: char| !char_is_whitespace(c)
}

/// The query text without its whitespace: the key of a plan in the cache.
pub fn query_signature(query: &str) -> (r: String)
    ensures
        r@ == query@.filter(not_space()),
{
    let cs = chars_of(query);
    let mut kept_chars: Vec<char> = Vec::new();
    let mut i: usize = 0;
    proof {
        reveal_with_fuel(Seq::<char>::filter, 1);
        assert(cs@.take(0).len() == 0);
    }
    assert(kept_chars@ =~= cs@.take(0).filter(not_space()));
    while i < cs.len()
        invariant
            cs@ == query@,
            i <= cs.len(),
            kept_chars@ == cs@.take(i as int).filter(not_space()),
        decreases cs.len() - i,
    {
        let c = cs[i];
        proof {
            assert(cs@.take(i + 1).drop_last() =~= cs@.take(i as int));
            assert(cs@.take(i + 1).last() == c);
            reveal_with_fuel(Seq::<char>::filter, 1);
        }
        if !is_whitespace(c) {
            kept_chars.push(c);
        }
        i = i + 1;
    }
    assert(cs@.take(i as int) =~= cs@);
    string_from_chars(&kept_chars)
}

// ---------------------------------------------------------------------
// Execution state and mutations
// ---------------------------------------------------------------------

/// What plan execution has so far: the entities bound to each name (in the
/// order the names were first bound), the result rows, the last inserted
/// entity and the counts of rows deleted and affected.
pub struct ExecState {
    pub bindings: Vec<(String, Vec<Entity>)>,
    pub result_rows: Vec<Vec<(String, Value)>>,
    pub last_inserted_id: Option<EntityId>,
    pub deleted_count: usize,
    pub rows_affected: usize,
}

/// Bindings as names and entity lists.
pub open spec fn bindings_view(b: Seq<(String, Vec<Entity>)>) -> Seq<(Seq<char>, Seq<Entity>)> {
    b.map_values(|p: (String, Vec<Entity>)| (p.0@, p.1@))
}

/// A row as names and values.
pub open spec fn row_view(row: Vec<(String, Value)>) -> Seq<(Seq<char>, IrValueView)> {
    row@.map_values(|p: (String, Value)| (p.0@, p.1@))
}

/// Rows as names and values.
pub open spec fn rows_view(rows: Seq<Vec<(String, Value)>>) -> Seq<Seq<(Seq<char>, IrValueView)>> {
    rows.map_values(|row: Vec<(String, Value)>| row_view(row))
}

/// The first place at or after `i` bound to `name`; the length where there
/// is none.
pub open spec fn find_binding(b: Seq<(Seq<char>, Seq<Entity>)>, name: Seq<char>, i: int) -> int
    decreases b.len() - i,
{
    if i < 0 || i >= b.len() {
        b.len() as int
    } else if b[i].0 == name {
        i
    } else {
        find_binding(b, name, i + 1)
    }
}

/// `find_binding` stays within the bindings.
pub proof fn lemma_find_binding(b: Seq<(Seq<char>, Seq<Entity>)>, name: Seq<char>, i: int)
    requires
        0 <= i <= b.len(),
    ensures
        i <= find_binding(b, name, i) <= b.len(),
    decreases b.len() - i,
{
    if i < b.len() && b[i].0 != name {
        lemma_find_binding(b, name, i + 1);
    }
}

/// The ID of the first entity of binding `i`, where it has one.
pub open spec fn first_entity(b: Seq<(Seq<char>, Seq<Entity>)>, i: int) -> Option<u64> {
    if 0 <= i < b.len() && b[i].1.len() > 0 {
        Some(b[i].1[0].id.0)
    } else {
        None
    }
}

/// The ends of an edge created from the bindings: the first entity of the
/// first binding and that of the second, where both are there.
pub open spec fn edge_ends(b: Seq<(Seq<char>, Seq<Entity>)>) -> Option<(u64, u64)> {
    match (first_entity(b, 0), first_entity(b, 1)) {
        (Some(s), Some(t)) => Some((s, t)),
        _ => None,
    }
}

/// The same state but for the graph's mutations.
pub open spec fn same_state(a: ExecState, b: ExecState) -> bool {
    &&& bindings_view(a.bindings@) == bindings_view(b.bindings@)
    &&& rows_view(a.result_rows@) == rows_view(b.result_rows@)
    &&& a.last_inserted_id == b.last_inserted_id
    &&& a.deleted_count == b.deleted_count
    &&& a.rows_affected == b.rows_affected
}

impl ExecState {
    /// No bindings, no rows, no counts.
    pub fn new() -> (r: Self)
        ensures
            bindings_view(r.bindings@) == Seq::<(Seq<char>, Seq<Entity>)>::empty(),
            r.result_rows@.len() == 0,
            r.last_inserted_id is None,
            r.deleted_count == 0,
            r.rows_affected == 0,
    {
        let r = ExecState {
            bindings: Vec::new(),
            result_rows: Vec::new(),
            last_inserted_id: None,
            deleted_count: 0,
            rows_affected: 0,
        };
        assert(bindings_view(r.bindings@) =~= Seq::<(Seq<char>, Seq<Entity>)>::empty());
        r
    }

    /// Where `name` is bound.
    pub fn binding_index(&self, name: &str) -> (r: usize)
        ensures
            r as int == find_binding(bindings_view(self.bindings@), name@, 0),
            r <= self.bindings@.len(),
    {
        proof {
            lemma_find_binding(bindings_view(self.bindings@), name@, 0);
        }
        let ghost b = bindings_view(self.bindings@);
        let mut i: usize = 0;
        while i < self.bindings.len()
            invariant
                b == bindings_view(self.bindings@),
                i <= self.bindings.len(),
                find_binding(b, name@, 0) == find_binding(b, name@, i as int),
            decreases self.bindings.len() - i,
        {
            if str_equal(self.bindings[i].0.as_str(), name) {
                return i;
            }
            i = i + 1;
        }
        i
    }

    /// The entities bound to `name`, if it is bound.
    pub fn binding(&self, name: &str) -> (r: Option<&Vec<Entity>>)
        ensures
            ({
                let b = bindings_view(self.bindings@);
                let p = find_binding(b, name@, 0);
                if p < b.len() {
                    r matches Some(v) && v@ == b[p].1
                } else {
                    r is None
                }
            }),
    {
        let p = self.binding_index(name);
        if p < self.bindings.len() {
            Some(&self.bindings[p].1)
        } else {
            None
        }
    }

    /// Bind `name` to `entities`: in place where it is bound, at the end
    /// where it is not.
    pub fn bind(&mut self, name: String, entities: Vec<Entity>)
        ensures
            ({
                let b = bindings_view(old(self).bindings@);
                let p = find_binding(b, name@, 0);
                bindings_view(final(self).bindings@) == if p < b.len() {
                    b.update(p, (name@, entities@))
                } else {
                    b.push((name@, entities@))
                }
            }),
            rows_view(final(self).result_rows@) == rows_view(old(self).result_rows@),
            final(self).last_inserted_id == old(self).last_inserted_id,
            final(self).deleted_count == old(self).deleted_count,
            final(self).rows_affected == old(self).rows_affected,
    {
        let ghost b = bindings_view(self.bindings@);
        let ghost ns = name@;
        let ghost es = entities@;
        let p = self.binding_index(name.as_str());
        if p < self.bindings.len() {
            self.bindings.set(p, (name, entities));
            assert(bindings_view(self.bindings@) =~= b.update(p as int, (ns, es)));
        } else {
            self.bindings.push((name, entities));
            assert(bindings_view(self.bindings@) =~= b.push((ns, es)));
        }
    }
}

/// The error of a name that is not bound.
pub open spec fn unbound_msg(name: Seq<char>) -> Seq<char> {
    "Binding not found: "@ + name
}

/// Carry out a writing operation. An insert adds an entity of its
/// collection with `properties` and answers with a row holding its `id`;
/// an update or a delete counts the entities of its binding (the graph is
/// left as it is); creating an edge links the first entity of the first
/// binding to that of the second, where both are there, and answers with a
/// row holding its `edge_id`. Any other operation is refused.
pub fn execute_mutation(graph: &mut Graph, operation: &Operation, properties: Properties, ctx: &mut ExecState) -> (r: Result<
    (),
    String,
>)
    requires
        old(graph).wf(),
        operation is InsertEntity ==> old(ctx).rows_affected < usize::MAX,
        operation is CreateEdge ==> match edge_ends(bindings_view(old(ctx).bindings@)) {
            Some((s, t)) => old(graph).entities_spec().contains_key(s) && old(graph).entities_spec().contains_key(t)
                ==> old(graph).outgoing_spec().contains_key(s) && old(graph).incoming_spec().contains_key(t),
            None => true,
        },
    ensures
        final(graph).wf(),
        bindings_view(final(ctx).bindings@) == bindings_view(old(ctx).bindings@),
        match operation {
            Operation::InsertEntity { collection, .. } => {
                let id = old(graph).next_entity_spec();
                &&& r is Ok
                &&& final(graph).next_entity_spec() == next_id(id)
                &&& final(graph).entities_spec().dom() == old(graph).entities_spec().dom().insert(id)
                &&& forall|k: u64| k != id && #[trigger] old(graph).entities_spec().contains_key(k)
                    ==> final(graph).entities_spec()[k] == old(graph).entities_spec()[k]
                &&& final(graph).entities_spec()[id].entity_type == collection@
                &&& final(graph).entities_spec()[id].properties == properties.entries_spec()
                &&& final(graph).collections_spec() == old(graph).collections_spec().insert(
                    collection@,
                    ids_of(old(graph).collections_spec(), collection@).push(id),
                )
                &&& final(graph).edges_spec() == old(graph).edges_spec()
                &&& final(ctx).rows_affected == old(ctx).rows_affected + 1
                &&& final(ctx).last_inserted_id == Some(EntityId(id))
                &&& rows_view(final(ctx).result_rows@) == rows_view(old(ctx).result_rows@).push(
                    seq![("id"@, IrValueView::EntityId(id))],
                )
                &&& final(ctx).deleted_count == old(ctx).deleted_count
            },
            Operation::UpdateEntities { binding, .. } => {
                let b = bindings_view(old(ctx).bindings@);
                let p = find_binding(b, binding@, 0);
                &&& *final(graph) == *old(graph)
                &&& rows_view(final(ctx).result_rows@) == rows_view(old(ctx).result_rows@)
                &&& final(ctx).last_inserted_id == old(ctx).last_inserted_id
                &&& final(ctx).deleted_count == old(ctx).deleted_count
                &&& p == b.len() ==> (r matches Err(e) && e@ == unbound_msg(binding@)
                    && final(ctx).rows_affected == old(ctx).rows_affected)
                &&& p < b.len() ==> (r is Ok && final(ctx).rows_affected == b[p].1.len())
            },
            Operation::DeleteEntities { binding } => {
                let b = bindings_view(old(ctx).bindings@);
                let p = find_binding(b, binding@, 0);
                &&& *final(graph) == *old(graph)
                &&& rows_view(final(ctx).result_rows@) == rows_view(old(ctx).result_rows@)
                &&& final(ctx).last_inserted_id == old(ctx).last_inserted_id
                &&& p == b.len() ==> (r matches Err(e) && e@ == unbound_msg(binding@)
                    && final(ctx).rows_affected == old(ctx).rows_affected
                    && final(ctx).deleted_count == old(ctx).deleted_count)
                &&& p < b.len() ==> (r is Ok && final(ctx).rows_affected == b[p].1.len()
                    && final(ctx).deleted_count == b[p].1.len())
            },
            Operation::CreateEdge { edge_type, .. } => {
                &&& r is Ok
                &&& final(ctx).last_inserted_id == old(ctx).last_inserted_id
                &&& final(ctx).deleted_count == old(ctx).deleted_count
                &&& match edge_ends(bindings_view(old(ctx).bindings@)) {
                    Some((s, t)) => if old(graph).entities_spec().contains_key(s) && old(graph).entities_spec().contains_key(t) {
                        let id = old(graph).next_edge_spec();
                        &&& final(graph).next_edge_spec() == next_id(id)
                        &&& final(graph).edges_spec().dom() == old(graph).edges_spec().dom().insert(id)
                        &&& forall|k: u64| k != id && #[trigger] old(graph).edges_spec().contains_key(k)
                            ==> final(graph).edges_spec()[k] == old(graph).edges_spec()[k]
                        &&& final(graph).edges_spec()[id].source == s
                        &&& final(graph).edges_spec()[id].target == t
                        &&& final(graph).edges_spec()[id].edge_type == edge_type@
                        &&& final(graph).edges_spec()[id].properties == properties.entries_spec()
                        &&& final(graph).entities_spec() == old(graph).entities_spec()
                        &&& final(ctx).rows_affected == 1
                        &&& rows_view(final(ctx).result_rows@) == rows_view(old(ctx).result_rows@).push(
                            seq![("edge_id"@, IrValueView::EdgeId(id))],
                        )
                    } else {
                        &&& *final(graph) == *old(graph)
                        &&& same_state(*final(ctx), *old(ctx))
                    },
                    None => {
                        &&& *final(graph) == *old(graph)
                        &&& same_state(*final(ctx), *old(ctx))
                    },
                }
            },
            _ => {
                &&& r matches Err(e) && e@ == "Not a mutation operation"@
                &&& *final(graph) == *old(graph)
                &&& same_state(*final(ctx), *old(ctx))
            },
        },
{
    match operation {
        Operation::InsertEntity { collection, .. } => {
            let id = graph.add_entity(collection.clone(), properties);
            ctx.last_inserted_id = Some(id);
            ctx.rows_affected = ctx.rows_affected + 1;
            let row: Vec<(String, Value)> = vec![(String::from_str("id"), Value::EntityId(id.0))];
            let ghost before = rows_view(ctx.result_rows@);
            ctx.result_rows.push(row);
            proof {
                reveal_strlit("id");
                assert(row_view(row) =~= seq![("id"@, IrValueView::EntityId(id.0))]);
                assert(rows_view(ctx.result_rows@) =~= before.push(row_view(row)));
            }
            Ok(())
        },
        Operation::UpdateEntities { binding, .. } => {
            let p = ctx.binding_index(binding.as_str());
            if p == ctx.bindings.len() {
                return Err(concat2("Binding not found: ", binding.as_str()));
            }
            ctx.rows_affected = ctx.bindings[p].1.len();
            Ok(())
        },
        Operation::DeleteEntities { binding } => {
            let p = ctx.binding_index(binding.as_str());
            if p == ctx.bindings.len() {
                return Err(concat2("Binding not found: ", binding.as_str()));
            }
            let n = ctx.bindings[p].1.len();
            ctx.deleted_count = n;
            ctx.rows_affected = n;
            Ok(())
        },
        Operation::CreateEdge { edge_type, .. } => {
            let ghost b = bindings_view(ctx.bindings@);
            if ctx.bindings.len() < 2 || ctx.bindings[0].1.len() == 0 || ctx.bindings[1].1.len() == 0 {
                return Ok(());
            }
            let source = ctx.bindings[0].1[0].id;
            let target = ctx.bindings[1].1[0].id;
            assert(edge_ends(b) == Some((source.0, target.0)));
            match graph.add_edge(source, target, edge_type.clone(), properties) {
                Some(edge_id) => {
                    ctx.rows_affected = 1;
                    let row: Vec<(String, Value)> = vec![(String::from_str("edge_id"), Value::EdgeId(edge_id.0))];
                    let ghost before = rows_view(ctx.result_rows@);
                    ctx.result_rows.push(row);
                    proof {
                        reveal_strlit("edge_id");
                        assert(row_view(row) =~= seq![("edge_id"@, IrValueView::EdgeId(edge_id.0))]);
                        assert(rows_view(ctx.result_rows@) =~= before.push(row_view(row)));
                    }
                    Ok(())
                },
                None => Ok(()),
            }
        },
        _ => Err(String::from_str("Not a mutation operation")),
    }
}

// ---------------------------------------------------------------------
// Comparing property values
// ---------------------------------------------------------------------

/// How two property values compare where no float is involved.
pub enum ValueOrder {
    Less,
    Equal,
    Greater,
    /// The values do not compare (different kinds, or kinds without order).
    Unordered,
    /// A float is involved: floating-point comparison decides.
    Float,
}

/// How two property values compare: integers by value, texts by character
/// codes (the order of their UTF-8 bytes); a float on either side with an
/// integer or a float is left to floating-point comparison; any other pair
/// does not compare.
pub open spec fn value_order(a: TypesValueView, b: TypesValueView) -> ValueOrder {
    match (a, b) {
        (TypesValueView::Int(x), TypesValueView::Int(y)) => if x < y {
            ValueOrder::Less
        } else if x == y {
            ValueOrder::Equal
        } else {
            ValueOrder::Greater
        },
        (TypesValueView::String(x), TypesValueView::String(y)) => if chars_lt(x, y) {
            ValueOrder::Less
        } else if x == y {
            ValueOrder::Equal
        } else {
            ValueOrder::Greater
        },
        (TypesValueView::Float(_), TypesValueView::Float(_)) => ValueOrder::Float,
        (TypesValueView::Int(_), TypesValueView::Float(_)) => ValueOrder::Float,
        (TypesValueView::Float(_), TypesValueView::Int(_)) => ValueOrder::Float,
        _ => ValueOrder::Unordered,
    }
}

/// How two property values compare (see `value_order`).
pub fn compare_values(a: &PropertyValue, b: &PropertyValue) -> (r: ValueOrder)
    ensures
        r == value_order(a@, b@),
{
    match (a, b) {
        (PropertyValue::Int(x), PropertyValue::Int(y)) => if *x < *y {
            ValueOrder::Less
        } else if *x == *y {
            ValueOrder::Equal
        } else {
            ValueOrder::Greater
        },
        (PropertyValue::String(x), PropertyValue::String(y)) => {
            let xs = chars_of(x.as_str());
            let ys = chars_of(y.as_str());
            if chars_less(&xs, &ys) {
                ValueOrder::Less
            } else if str_equal(x.as_str(), y.as_str()) {
                ValueOrder::Equal
            } else {
                ValueOrder::Greater
            }
        },
        (PropertyValue::Float(_), PropertyValue::Float(_)) => ValueOrder::Float,
        (PropertyValue::Int(_), PropertyValue::Float(_)) => ValueOrder::Float,
        (PropertyValue::Float(_), PropertyValue::Int(_)) => ValueOrder::Float,
        _ => ValueOrder::Unordered,
    }
}

/// Whether two property values are equal where no float is involved:
/// nulls are, booleans, integers and texts by value, values of different
/// kinds are not; two floats are left to floating-point comparison (none).
pub open spec fn value_equality(a: TypesValueView, b: TypesValueView) -> Option<bool> {
    match (a, b) {
        (TypesValueView::Null, TypesValueView::Null) => Some(true),
        (TypesValueView::Bool(x), TypesValueView::Bool(y)) => Some(x == y),
        (TypesValueView::Int(x), TypesValueView::Int(y)) => Some(x == y),
        (TypesValueView::String(x), TypesValueView::String(y)) => Some(x == y),
        (TypesValueView::Float(_), TypesValueView::Float(_)) => None,
        _ => Some(false),
    }
}

/// Whether two property values are equal (see `value_equality`).
pub fn values_equal(a: &PropertyValue, b: &PropertyValue) -> (r: Option<bool>)
    ensures
        r == value_equality(a@, b@),
{
    match (a, b) {
        (PropertyValue::Null, PropertyValue::Null) => Some(true),
        (PropertyValue::Bool(x), PropertyValue::Bool(y)) => Some(*x == *y),
        (PropertyValue::Int(x), PropertyValue::Int(y)) => Some(*x == *y),
        (PropertyValue::String(x), PropertyValue::String(y)) => Some(str_equal(x.as_str(), y.as_str())),
        (PropertyValue::Float(_), PropertyValue::Float(_)) => None,
        _ => Some(false),
    }
}

} // verus!
