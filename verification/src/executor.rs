//! Query execution over the graph: filtering a collection with a
//! predicate, and walking outgoing edges from an entity up to a depth.

use vstd::prelude::*;
use std::collections::HashSet;
use std::sync::Arc;
use crate::graph::{
    Entity, EntityView, Graph, links_of, neighbors, pairs_view, present_ids, ids_of, read_of,
};
use crate::types::EntityId;

verus! {

broadcast use vstd::std_specs::hash::group_hash_axioms;

/// The views of a list of entities.
pub open spec fn entity_views(v: Seq<Entity>) -> Seq<EntityView> {
    v.map_values(|e: Entity| e@)
}

/// The items of `s` whose flag in `keep` is set, in order.
pub open spec fn kept(s: Seq<EntityView>, keep: Seq<bool>) -> Seq<EntityView>
    decreases s.len(),
{
    if s.len() == 0 || keep.len() != s.len() {
        Seq::empty()
    } else {
        let rest = kept(s.drop_last(), keep.drop_last());
        if keep.last() {
            rest.push(s.last())
        } else {
            rest
        }
    }
}

/// Some edge of the given type (or of any) leads from `y` to `x`.
pub open spec fn steps_to(
    out: Map<u64, Seq<(Seq<char>, u64, u64)>>,
    edge_type: Option<Seq<char>>,
    y: u64,
    x: u64,
) -> bool {
    exists|j: int|
        0 <= j < neighbors(links_of(out, y), edge_type).len() && #[trigger] neighbors(links_of(out, y), edge_type)[j].0
            == x
}

/// `path` starts at `start` and each entity in it leads to the next by
/// such an edge.
pub open spec fn is_path(
    out: Map<u64, Seq<(Seq<char>, u64, u64)>>,
    edge_type: Option<Seq<char>>,
    start: u64,
    path: Seq<u64>,
) -> bool {
    &&& path.len() >= 1
    &&& path[0] == start
    &&& forall|i: int| 0 <= i < path.len() - 1 ==> steps_to(out, edge_type, #[trigger] path[i], path[i + 1])
}

/// A path of `d` such edges leads from `start` to `x`.
pub open spec fn reaches(
    out: Map<u64, Seq<(Seq<char>, u64, u64)>>,
    edge_type: Option<Seq<char>>,
    start: u64,
    x: u64,
    d: nat,
) -> bool {
    exists|path: Seq<u64>| #[trigger] is_path(out, edge_type, start, path) && path.len() == d + 1 && path.last() == x
}

/// One more edge lengthens a path by one.
proof fn lemma_step(
    out: Map<u64, Seq<(Seq<char>, u64, u64)>>,
    edge_type: Option<Seq<char>>,
    start: u64,
    y: u64,
    x: u64,
    d: nat,
)
    requires
        reaches(out, edge_type, start, y, d),
        steps_to(out, edge_type, y, x),
    ensures
        reaches(out, edge_type, start, x, d + 1),
{
    let path = choose|path: Seq<u64>| #[trigger] is_path(out, edge_type, start, path) && path.len() == d + 1 && path.last() == y;
    let longer = path.push(x);
    assert forall|i: int| 0 <= i < longer.len() - 1 implies steps_to(out, edge_type, #[trigger] longer[i], longer[i + 1]) by {
        if i < path.len() - 1 {
            assert(longer[i] == path[i] && longer[i + 1] == path[i + 1]);
        } else {
            assert(longer[i] == y && longer[i + 1] == x);
        }
    }
    assert(is_path(out, edge_type, start, longer));
}

/// The edge type asked for, as characters.
pub open spec fn type_asked(edge_type: Option<&str>) -> Option<Seq<char>> {
    match edge_type {
        Some(t) => Some(t@),
        None => None,
    }
}

/// The state of a depth-first walk: the stack of (entity, depth) pairs
/// still to enter, the entities entered, and the entities listed so far.
pub type WalkState = (Seq<(u64, nat)>, Set<u64>, Seq<u64>);

/// The stack after pushing, in order, each neighbour not yet entered, one
/// level deeper.
pub open spec fn push_unentered(stack: Seq<(u64, nat)>, nb: Seq<(u64, u64)>, entered: Set<u64>, depth: nat) -> Seq<
    (u64, nat),
>
    decreases nb.len(),
{
    if nb.len() == 0 {
        stack
    } else {
        let s = push_unentered(stack, nb.drop_last(), entered, depth);
        if entered.contains(nb.last().0) {
            s
        } else {
            s.push((nb.last().0, depth))
        }
    }
}

/// One step of the walk: take the top of the stack; skip it where it is
/// too deep or already entered; else enter it, list it where it is not
/// the start (depth 0) and is in the graph, and push its unentered
/// neighbours where it is not at the greatest depth.
pub open spec fn walk_step(
    out: Map<u64, Seq<(Seq<char>, u64, u64)>>,
    edge_type: Option<Seq<char>>,
    max_depth: nat,
    t: Map<u64, EntityView>,
    w: WalkState,
) -> WalkState {
    if w.0.len() == 0 {
        w
    } else {
        let id = w.0.last().0;
        let d = w.0.last().1;
        let rest = w.0.drop_last();
        if d > max_depth || w.1.contains(id) {
            (rest, w.1, w.2)
        } else {
            let entered = w.1.insert(id);
            let listed = if d > 0 && t.contains_key(id) {
                w.2.push(id)
            } else {
                w.2
            };
            let stack = if d < max_depth {
                push_unentered(rest, neighbors(links_of(out, id), edge_type), entered, d + 1)
            } else {
                rest
            };
            (stack, entered, listed)
        }
    }
}

/// The walk from `start` after `n` steps.
pub open spec fn walk(
    out: Map<u64, Seq<(Seq<char>, u64, u64)>>,
    edge_type: Option<Seq<char>>,
    max_depth: nat,
    t: Map<u64, EntityView>,
    start: u64,
    n: nat,
) -> WalkState
    decreases n,
{
    if n == 0 {
        (seq![(start, 0nat)], Set::empty(), Seq::empty())
    } else {
        walk_step(out, edge_type, max_depth, t, walk(out, edge_type, max_depth, t, start, (n - 1) as nat))
    }
}

/// The IDs of a list of entities.
pub open spec fn listed_ids(v: Seq<Entity>) -> Seq<u64> {
    v.map_values(|e: Entity| e.id.0)
}

/// A stack of (entity, depth) pairs as numbers.
pub open spec fn stack_view(q: Seq<(EntityId, usize)>) -> Seq<(u64, nat)> {
    q.map_values(|p: (EntityId, usize)| (p.0.0, p.1 as nat))
}

/// Query executor over a shared graph.
pub struct Executor {
    graph: Arc<Graph>,
}

impl Executor {
    /// The graph queried.
    pub closed spec fn graph_spec(&self) -> Graph {
        *self.graph
    }

    pub fn new(graph: Arc<Graph>) -> (r: Self)
        ensures
            r.graph_spec() == *graph,
    {
        Executor { graph }
    }

    /// The entities of a collection, read in order as a scan reads them,
    /// that the predicate accepts.
    pub fn execute_filter<F: Fn(&Entity) -> bool>(&self, collection: &str, predicate: F) -> (r: Vec<Entity>)
        requires
            self.graph_spec().wf(),
            forall|e: Entity| #[trigger] call_requires(predicate, (&e,)),
        ensures
            exists|s: Seq<Entity>, keep: Seq<bool>|
                {
                    &&& s.len() == present_ids(
                        ids_of(self.graph_spec().collections_spec(), collection@),
                        self.graph_spec().entities_spec(),
                    ).len()
                    &&& keep.len() == s.len()
                    &&& forall|i: int|
                        0 <= i < s.len() ==> read_of(
                            #[trigger] s[i]@,
                            self.graph_spec().entities_spec()[present_ids(
                                ids_of(self.graph_spec().collections_spec(), collection@),
                                self.graph_spec().entities_spec(),
                            )[i]],
                        )
                    &&& forall|i: int| 0 <= i < s.len() ==> call_ensures(predicate, (&s[i],), #[trigger] keep[i])
                    &&& entity_views(r@) == kept(entity_views(s), keep)
                },
    {
        let all = self.graph.scan_collection(collection);
        let ghost keep: Seq<bool> = Seq::empty();
        let mut r: Vec<Entity> = Vec::new();
        let mut i: usize = 0;
        while i < all.len()
            invariant
                i <= all.len(),
                keep.len() == i,
                forall|e: Entity| #[trigger] call_requires(predicate, (&e,)),
                forall|j: int| 0 <= j < i ==> call_ensures(predicate, (&all@[j],), #[trigger] keep[j]),
                entity_views(r@) == kept(entity_views(all@.subrange(0, i as int)), keep),
            decreases all.len() - i,
        {
            let k = predicate(&all[i]);
            let ghost before = entity_views(r@);
            proof {
                let s1 = entity_views(all@.subrange(0, i + 1));
                let k1 = keep.push(k);
                assert(s1.drop_last() =~= entity_views(all@.subrange(0, i as int)));
                assert(k1.drop_last() =~= keep);
                assert(s1.last() == all@[i as int]@);
            }
            if k {
                r.push(crate::graph::copy_entity(&all[i]));
                assert(entity_views(r@) =~= before.push(all@[i as int]@));
            } else {
                assert(entity_views(r@) =~= before);
            }
            proof {
                keep = keep.push(k);
            }
            i = i + 1;
        }
        assert(all@.subrange(0, all.len() as int) =~= all@);
        r
    }

    /// Walk outgoing edges (of the given type, or of any) from `start_id`,
    /// depth first, each entity entered once and no deeper than
    /// `max_depth`; every entity entered at depth 1 or more is read and
    /// listed, in the order entered.
    pub fn execute_traversal(&self, start_id: EntityId, edge_type: Option<&str>, max_depth: usize) -> (r: Vec<Entity>)
        requires
            self.graph_spec().wf(),
        ensures
            forall|i: int|
                0 <= i < r@.len() ==> {
                    &&& self.graph_spec().entities_spec().contains_key(#[trigger] r@[i].id.0)
                    &&& read_of(r@[i]@, self.graph_spec().entities_spec()[r@[i].id.0])
                    &&& r@[i].id.0 != start_id.0
                    &&& exists|d: nat|
                        1 <= d <= max_depth && reaches(
                            self.graph_spec().outgoing_spec(),
                            type_asked(edge_type),
                            start_id.0,
                            r@[i].id.0,
                            d,
                        )
                },
            forall|i: int, j: int| 0 <= i < j < r@.len() ==> r@[i].id.0 != r@[j].id.0,
            exists|n: nat|
                {
                    let w = #[trigger] walk(
                        self.graph_spec().outgoing_spec(),
                        type_asked(edge_type),
                        max_depth as nat,
                        self.graph_spec().entities_spec(),
                        start_id.0,
                        n,
                    );
                    w.0.len() == 0 && listed_ids(r@) == w.2
                },
    {
        let ghost out = self.graph_spec().outgoing_spec();
        let ghost t = self.graph_spec().entities_spec();
        let ghost ty = type_asked(edge_type);
        let ghost dom = out.dom();
        let mut visited: HashSet<u64> = HashSet::new();
        let mut queue: Vec<(EntityId, usize)> = Vec::new();
        queue.push((start_id, 0));
        proof {
            let p = seq![start_id.0];
            assert(is_path(out, ty, start_id.0, p));
            assert(reaches(out, ty, start_id.0, start_id.0, 0));
        }
        let mut results: Vec<Entity> = Vec::new();
        let ghost mut n: nat = 0;
        assert(stack_view(queue@) =~= seq![(start_id.0, 0nat)]);
        assert(visited@ =~= Set::<u64>::empty());
        assert(listed_ids(results@) =~= Seq::<u64>::empty());
        while queue.len() > 0
            invariant
                walk(out, ty, max_depth as nat, t, start_id.0, n) == (stack_view(queue@), visited@, listed_ids(results@)),
                self.graph_spec().wf(),
                out == self.graph_spec().outgoing_spec(),
                t == self.graph_spec().entities_spec(),
                ty == type_asked(edge_type),
                dom == out.dom(),
                dom.finite(),
                forall|q: int|
                    0 <= q < queue@.len() ==> #[trigger] queue@[q].1 <= max_depth && reaches(
                        out,
                        ty,
                        start_id.0,
                        queue@[q].0.0,
                        queue@[q].1 as nat,
                    ),
                forall|i: int|
                    0 <= i < results@.len() ==> {
                        &&& t.contains_key(#[trigger] results@[i].id.0)
                        &&& read_of(results@[i]@, t[results@[i].id.0])
                        &&& results@[i].id.0 != start_id.0
                        &&& visited@.contains(results@[i].id.0)
                        &&& exists|d: nat| 1 <= d <= max_depth && reaches(out, ty, start_id.0, results@[i].id.0, d)
                    },
                forall|i: int, j: int| 0 <= i < j < results@.len() ==> results@[i].id.0 != results@[j].id.0,
                visited@.contains(start_id.0) || (queue@.len() == 1 && queue@[0].0.0 == start_id.0
                    && queue@[0].1 == 0),
            decreases dom.difference(visited@).len(), queue.len(),
        {
            let ghost w0 = walk(out, ty, max_depth as nat, t, start_id.0, n);
            let ghost q0 = queue@;
            let (current, depth) = queue.pop().unwrap();
            let ghost q_before = queue@.len();
            proof {
                assert(stack_view(queue@) =~= stack_view(q0).drop_last());
                assert(stack_view(q0).last() == (current.0, depth as nat));
            }
            if depth > max_depth || visited.contains(&current.0) {
                proof {
                    n = n + 1;
                }
                continue;
            }
            let ghost v_before = visited@;
            let ghost listed_before = listed_ids(results@);
            let ghost rest = stack_view(queue@);
            visited.insert(current.0);
            proof {
                if dom.contains(current.0) {
                    assert(dom.difference(visited@) =~= dom.difference(v_before).remove(current.0));
                } else {
                    assert(dom.difference(visited@) =~= dom.difference(v_before));
                }
            }
            if depth > 0 {
                if let Some(entity) = self.graph.get_entity(current) {
                    let ghost before = results@;
                    proof {
                        assert(t.contains_key(current.0));
                        assert(entity.id.0 == current.0);
                        assert(reaches(out, ty, start_id.0, current.0, depth as nat));
                        assert(v_before.contains(start_id.0));
                        assert(current.0 != start_id.0);
                        assert forall|i: int| 0 <= i < before.len() implies before[i].id.0 != current.0 by {
                            assert(v_before.contains(before[i].id.0));
                        }
                    }
                    results.push(entity);
                    assert(listed_ids(results@) =~= listed_before.push(current.0));
                    proof {
                        assert(results@[before.len() as int] == entity);
                        let n = before.len() as int;
                        assert(exists|d: nat| 1 <= d <= max_depth && reaches(out, ty, start_id.0, results@[n].id.0, d)) by {
                            assert(reaches(out, ty, start_id.0, results@[n].id.0, depth as nat));
                        }
                    }
                }
            }
            proof {
                assert(listed_ids(results@) == (if depth > 0 && t.contains_key(current.0) {
                    listed_before.push(current.0)
                } else {
                    listed_before
                }));
            }
            if depth < max_depth {
                let nb = self.graph.get_outgoing_neighbors(current, edge_type);
                assert(pairs_view(nb@).take(0) =~= Seq::<(u64, u64)>::empty());
                proof {
                    assert(pairs_view(nb@) == neighbors(links_of(out, current.0), ty));
                    if !dom.contains(current.0) {
                        assert(links_of(out, current.0) =~= Seq::<(Seq<char>, u64, u64)>::empty());
                        assert(neighbors(Seq::<(Seq<char>, u64, u64)>::empty(), ty).len() == 0);
                        assert(pairs_view(nb@).len() == nb@.len());
                    }
                }
                let mut k: usize = 0;
                while k < nb.len()
                    invariant
                        k <= nb.len(),
                        pairs_view(nb@) == neighbors(links_of(out, current.0), ty),
                        depth < max_depth,
                        reaches(out, ty, start_id.0, current.0, depth as nat),
                        forall|q: int|
                            0 <= q < queue@.len() ==> #[trigger] queue@[q].1 <= max_depth && reaches(
                                out,
                                ty,
                                start_id.0,
                                queue@[q].0.0,
                                queue@[q].1 as nat,
                            ),
                        !dom.contains(current.0) ==> nb@.len() == 0,
                        queue@.len() >= q_before,
                        nb@.len() == 0 ==> queue@.len() == q_before,
                        visited@ == v_before.insert(current.0),
                        stack_view(queue@) == push_unentered(rest, pairs_view(nb@).take(k as int), visited@, (depth + 1) as nat),
                    decreases nb.len() - k,
                {
                    let (next, _edge) = nb[k];
                    let ghost qk = stack_view(queue@);
                    proof {
                        let pv = pairs_view(nb@);
                        assert(pv.take(k + 1).drop_last() =~= pv.take(k as int));
                        assert(pv.take(k + 1).last() == (next.0, _edge.0));
                    }
                    if !visited.contains(&next.0) {
                        proof {
                            assert(pairs_view(nb@)[k as int] == (next.0, _edge.0));
                            assert(neighbors(links_of(out, current.0), ty)[k as int].0 == next.0);
                            assert(steps_to(out, ty, current.0, next.0));
                            lemma_step(out, ty, start_id.0, current.0, next.0, depth as nat);
                            assert(depth as nat + 1 == (depth + 1) as nat);
                        }
                        queue.push((next, depth + 1));
                        assert(stack_view(queue@) =~= qk.push((next.0, (depth + 1) as nat)));
                    }
                    k = k + 1;
                }
                assert(pairs_view(nb@).take(k as int) =~= pairs_view(nb@));
            }
            proof {
                n = n + 1;
            }
        }
        results
    }
}

} // verus!
