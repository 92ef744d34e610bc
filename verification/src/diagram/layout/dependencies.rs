//! The temporal order of entities: which entities happen before which,
//! from the connections in the slices, and an order of all entities that
//! respects it.

use super::LayoutError;
use crate::event_model::diagram::{Connector, EventModelDiagram, Slice, Swimlane, SwimlaneId};
use crate::event_model::entities::EntityId;
use crate::event_model::registry::KindMarker;
use crate::diagram::routing::pathfinding::{lemma_num_settled_all, lemma_num_settled_le, lemma_num_settled_none, lemma_num_settled_set, num_settled};
use crate::infrastructure::text::{chars_of, str_equal, string_from_range};
use vstd::prelude::*;

verus! {

/// The kind prefix of an entity id: the text before its first `_`, or
/// `unknown` when it has none.
pub open spec fn entity_type(id: Seq<char>) -> Seq<char> {
    if exists|i: int| 0 <= i < id.len() && id[i] == '_' {
        id.take(choose|i: int| 0 <= i < id.len() && id[i] == '_' && forall|j: int| 0 <= j < i ==> id[j] != '_')
    } else {
        "unknown"@
    }
}

/// Whether a connection between entities of these kinds orders them in
/// time: a command produces an event, an event builds a projection.
pub open spec fn temporal(from_type: Seq<char>, to_type: Seq<char>) -> bool {
    (from_type == "command"@ && to_type == "event"@) || (from_type == "event"@ && to_type == "projection"@)
}

/// Extracts the entity type from a prefixed id (`command_CreateUser` has
/// type `command`).
pub fn extract_entity_type(entity_id: &EntityId) -> (r: String)
    ensures
        r@ == entity_type(entity_id@),
{
    let text = entity_id.clone().into_inner().into_inner();
    let chars = chars_of(text.as_str());
    let n = chars.len();
    let mut i: usize = 0;
    while i < n
        invariant
            n == chars@.len(),
            chars@ == entity_id@,
            i <= n,
            forall|j: int| 0 <= j < i ==> chars@[j] != '_',
        decreases n - i,
    {
        if chars[i] == '_' {
            let r = string_from_range(&chars, 0, i);
            proof {
                let id = entity_id@;
                let k = choose|k: int| 0 <= k < id.len() && id[k] == '_' && forall|j: int| 0 <= j < k ==> id[j] != '_';
                if k < i {
                    assert(chars@[k] != '_');
                }
                if k > i {
                    assert(id[i as int] == '_');
                }
                assert(chars@.subrange(0, i as int) =~= id.take(i as int));
            }
            return r;
        }
        i += 1;
    }
    "unknown".to_owned()
}

/// Whether a connection orders its entities in time (used for layout),
/// as opposed to a notification that does not.
pub fn is_temporal_connection(from: &EntityId, to: &EntityId) -> (r: bool)
    ensures
        r == temporal(entity_type(from@), entity_type(to@)),
{
    let from_type = extract_entity_type(from);
    let to_type = extract_entity_type(to);
    if str_equal(from_type.as_str(), "command") && str_equal(to_type.as_str(), "event") {
        true
    } else if str_equal(from_type.as_str(), "event") && str_equal(to_type.as_str(), "projection") {
        true
    } else {
        false
    }
}

/// The ids of the entities of `lanes`, lane by lane.
pub open spec fn lane_ids(lanes: Seq<Swimlane>) -> Seq<Seq<char>>
    decreases lanes.len(),
{
    if lanes.len() == 0 {
        Seq::empty()
    } else {
        lane_ids(lanes.drop_last()) + ids_of(lanes.last().entities@)
    }
}

/// The views of entity ids.
pub open spec fn ids_of(v: Seq<EntityId>) -> Seq<Seq<char>> {
    v.map_values(|e: EntityId| e@)
}

/// `s` with each id once, where it first appears.
pub open spec fn first_ids(s: Seq<Seq<char>>) -> Seq<Seq<char>>
    decreases s.len(),
{
    if s.len() == 0 {
        s
    } else {
        let d = first_ids(s.drop_last());
        if d.contains(s.last()) {
            d
        } else {
            d.push(s.last())
        }
    }
}

/// The sources of the temporal connections to `v` among `cs`, in order.
pub open spec fn connection_sources(cs: Seq<Connector>, v: Seq<char>) -> Seq<Seq<char>>
    decreases cs.len(),
{
    if cs.len() == 0 {
        Seq::empty()
    } else {
        let rest = connection_sources(cs.drop_last(), v);
        let c = cs.last();
        if temporal(entity_type(c.from@), entity_type(c.to@)) && c.to@ == v {
            rest.push(c.from@)
        } else {
            rest
        }
    }
}

/// The sources of the temporal connections to `v` in `slices`, slice by
/// slice: the entities that happen before it.
pub open spec fn temporal_sources(slices: Seq<Slice>, v: Seq<char>) -> Seq<Seq<char>>
    decreases slices.len(),
{
    if slices.len() == 0 {
        Seq::empty()
    } else {
        temporal_sources(slices.drop_last(), v) + connection_sources(slices.last().connections@, v)
    }
}

/// The id of the last of `lanes` that has the entity `v`.
pub open spec fn lane_of(lanes: Seq<Swimlane>, v: Seq<char>) -> Option<Seq<char>>
    decreases lanes.len(),
{
    if lanes.len() == 0 {
        None
    } else if ids_of(lanes.last().entities@).contains(v) {
        Some(lanes.last().id@)
    } else {
        lane_of(lanes.drop_last(), v)
    }
}

/// A dependency graph as the specifications see it: each entity with the
/// entities it depends on.
pub open spec fn graph_view(g: Seq<(EntityId, Vec<EntityId>)>) -> Seq<(Seq<char>, Seq<Seq<char>>)> {
    g.map_values(|e: (EntityId, Vec<EntityId>)| (e.0@, ids_of(e.1@)))
}

/// Whether two ids hold the same text.
fn same_id(a: &EntityId, b: &EntityId) -> (r: bool)
    ensures
        r == (a@ == b@),
{
    let x = a.clone().into_inner();
    let y = b.clone().into_inner();
    str_equal(x.as_str(), y.as_str())
}

/// The place of `id` in `keys`, if it is there.
fn key_index(keys: &Vec<EntityId>, id: &EntityId) -> (r: Option<usize>)
    ensures
        match r {
            Some(k) => k < keys@.len() && keys@[k as int]@ == id@ && forall|j: int| 0 <= j < k ==> keys@[j]@ != id@,
            None => !ids_of(keys@).contains(id@),
        },
{
    let mut i: usize = 0;
    while i < keys.len()
        invariant
            i <= keys@.len(),
            forall|j: int| 0 <= j < i ==> keys@[j]@ != id@,
        decreases keys@.len() - i,
    {
        if same_id(&keys[i], id) {
            return Some(i);
        }
        i += 1;
    }
    proof {
        if ids_of(keys@).contains(id@) {
            let j = choose|j: int| 0 <= j < ids_of(keys@).len() && ids_of(keys@)[j] == id@;
            assert(keys@[j]@ == id@);
        }
    }
    None
}

/// `first_ids` lists each id once.
proof fn lemma_first_ids_distinct(s: Seq<Seq<char>>)
    ensures
        forall|i: int, j: int| 0 <= i < j < first_ids(s).len() ==> first_ids(s)[i] != first_ids(s)[j],
    decreases s.len(),
{
    if s.len() > 0 {
        lemma_first_ids_distinct(s.drop_last());
        let d = first_ids(s.drop_last());
        let x = s.last();
        if !d.contains(x) {
            assert forall|i: int, j: int| 0 <= i < j < d.push(x).len() implies d.push(x)[i] != d.push(x)[j] by {
                if j == d.len() && d[i] == x {
                    assert(d.contains(x));
                }
            }
        }
    }
}

/// One more connection adds its source to the sources of its target when
/// it is temporal.
proof fn lemma_connection_step(cs: Seq<Connector>, b: int, v: Seq<char>)
    requires
        0 <= b < cs.len(),
    ensures
        connection_sources(cs.take(b + 1), v) == (if temporal(entity_type(cs[b].from@), entity_type(cs[b].to@)) && cs[b].to@ == v {
            connection_sources(cs.take(b), v).push(cs[b].from@)
        } else {
            connection_sources(cs.take(b), v)
        }),
{
    assert(cs.take(b + 1).drop_last() =~= cs.take(b));
    assert(cs.take(b + 1).last() == cs[b]);
}

/// What `first_ids` contains.
proof fn lemma_first_ids_contains(s: Seq<Seq<char>>)
    ensures
        forall|v: Seq<char>| #[trigger] first_ids(s).contains(v) <==> s.contains(v),
    decreases s.len(),
{
    if s.len() > 0 {
        let s0 = s.drop_last();
        lemma_first_ids_contains(s0);
        let d = first_ids(s0);
        let x = s.last();
        assert forall|v: Seq<char>| #[trigger] s.contains(v) <==> s0.contains(v) || v == x by {
            if s.contains(v) {
                let k = choose|k: int| 0 <= k < s.len() && s[k] == v;
                if k < s.len() - 1 {
                    assert(s0[k] == v);
                }
            }
            if s0.contains(v) {
                let k = choose|k: int| 0 <= k < s0.len() && s0[k] == v;
                assert(s[k] == v);
            }
            if v == x {
                assert(s[s.len() - 1] == v);
            }
        }
        assert forall|v: Seq<char>| #[trigger] d.push(x).contains(v) <==> d.contains(v) || v == x by {
            if d.push(x).contains(v) {
                let k = choose|k: int| 0 <= k < d.push(x).len() && d.push(x)[k] == v;
                if k < d.len() {
                    assert(d[k] == v);
                }
            }
            if d.contains(v) {
                let k = choose|k: int| 0 <= k < d.len() && d[k] == v;
                assert(d.push(x)[k] == v);
            }
            assert(d.push(x)[d.len() as int] == x);
        }
    }
}

/// Builds the dependency graph of `diagram`: each entity of a swimlane
/// (once, where it first appears) with the entities that happen before it,
/// by the temporal connections in the slices; and each entity with the id
/// of the last swimlane that has it.
pub fn build_dependency_graph<W: KindMarker, C: KindMarker, E: KindMarker, P: KindMarker, Q: KindMarker, A: KindMarker>(diagram: &EventModelDiagram<W, C, E, P, Q, A>) -> (r: (
    Vec<(EntityId, Vec<EntityId>)>,
    Vec<(EntityId, SwimlaneId)>,
))
    ensures
        graph_view(r.0@) == first_ids(lane_ids(diagram.swimlanes@)).map_values(
            |v: Seq<char>| (v, temporal_sources(diagram.slices@, v)),
        ),
        r.1@.map_values(|e: (EntityId, SwimlaneId)| (e.0@, e.1@)) == first_ids(lane_ids(diagram.swimlanes@)).map_values(
            |v: Seq<char>| (v, lane_of(diagram.swimlanes@, v)->0),
        ),
{
    let ghost lanes = diagram.swimlanes@;
    let ghost slices = diagram.slices@;
    let lane_list = diagram.swimlanes.iter();
    let mut keys: Vec<EntityId> = Vec::new();
    let mut deps: Vec<Vec<EntityId>> = Vec::new();
    let mut homes: Vec<SwimlaneId> = Vec::new();
    let nl = lane_list.len();
    assert(lanes.take(0) =~= Seq::<Swimlane>::empty());
    for i in 0..nl
        invariant
            nl == lanes.len(),
            lane_list@.len() == nl,
            forall|k: int| 0 <= k < nl ==> *lane_list@[k] == lanes[k],
            ids_of(keys@) == first_ids(lane_ids(lanes.take(i as int))),
            deps@.len() == keys@.len(),
            homes@.len() == keys@.len(),
            forall|k: int| 0 <= k < deps@.len() ==> (#[trigger] deps@[k])@.len() == 0,
            forall|k: int| 0 <= k < homes@.len() ==> Some((#[trigger] homes@[k])@) == lane_of(lanes.take(i as int), keys@[k]@),
    {
        let lane = lane_list[i];
        let ghost before = lane_ids(lanes.take(i as int));
        let ghost lane_view = ids_of(lane.entities@);
        proof {
            assert(lanes.take(i + 1).drop_last() =~= lanes.take(i as int));
            assert(lanes.take(i + 1).last() == lanes[i as int]);
        }
        let ne = lane.entities.len();
        for j in 0..ne
            invariant
                ne == lane.entities@.len(),
                lane_view == ids_of(lane.entities@),
                ids_of(keys@) == first_ids(before + lane_view.take(j as int)),
                deps@.len() == keys@.len(),
                homes@.len() == keys@.len(),
                forall|k: int| 0 <= k < deps@.len() ==> (#[trigger] deps@[k])@.len() == 0,
                forall|k: int| 0 <= k < homes@.len() ==> Some((#[trigger] homes@[k])@) == (if lane_view.take(j as int).contains(keys@[k]@) {
                    Some(lane.id@)
                } else {
                    lane_of(lanes.take(i as int), keys@[k]@)
                }),
        {
            let id = &lane.entities[j];
            let ghost t0 = lane_view.take(j as int);
            let ghost t1 = lane_view.take(j + 1);
            proof {
                assert(t1 =~= t0.push(id@));
                assert((before + t1).drop_last() =~= before + t0);
                assert forall|v: Seq<char>| #[trigger] t1.contains(v) <==> t0.contains(v) || v == id@ by {
                    if t1.contains(v) {
                        let k = choose|k: int| 0 <= k < t1.len() && t1[k] == v;
                        if k < j {
                            assert(t0[k] == v);
                        }
                    }
                    if t0.contains(v) {
                        let k = choose|k: int| 0 <= k < t0.len() && t0[k] == v;
                        assert(t1[k] == v);
                    }
                    if v == id@ {
                        assert(t1[j as int] == v);
                    }
                }
            }
            match key_index(&keys, id) {
                Some(k) => {
                    let ghost old_homes = homes@;
                    homes.set(k, lane.id.clone());
                    proof {
                        lemma_first_ids_distinct(before + t0);
                        assert(ids_of(keys@)[k as int] == id@);
                        assert forall|q: int| 0 <= q < keys@.len() && q != k implies keys@[q]@ != id@ by {
                            assert(ids_of(keys@)[q] == keys@[q]@);
                        }
                        assert forall|q: int| 0 <= q < homes@.len() implies Some((#[trigger] homes@[q])@) == (if t1.contains(keys@[q]@) {
                            Some(lane.id@)
                        } else {
                            lane_of(lanes.take(i as int), keys@[q]@)
                        }) by {
                            if q != k {
                                assert(homes@[q] == old_homes[q]);
                            }
                        }
                    }
                },
                None => {
                    let ghost old_keys = keys@;
                    let ghost old_homes = homes@;
                    let ghost old_deps = deps@;
                    keys.push(id.clone());
                    deps.push(Vec::new());
                    homes.push(lane.id.clone());
                    proof {
                        assert(ids_of(keys@) =~= ids_of(old_keys).push(id@));
                        assert forall|q: int| 0 <= q < deps@.len() implies (#[trigger] deps@[q])@.len() == 0 by {
                            if q < old_deps.len() {
                                assert(deps@[q] == old_deps[q]);
                            }
                        }
                        assert forall|q: int| 0 <= q < homes@.len() implies Some((#[trigger] homes@[q])@) == (if t1.contains(keys@[q]@) {
                            Some(lane.id@)
                        } else {
                            lane_of(lanes.take(i as int), keys@[q]@)
                        }) by {
                            if q < old_homes.len() {
                                assert(homes@[q] == old_homes[q]);
                                assert(keys@[q] == old_keys[q]);
                                assert(ids_of(old_keys)[q] == old_keys[q]@);
                            }
                        }
                    }
                },
            }
        }
        proof {
            assert(lane_view.take(ne as int) =~= lane_view);
            assert(lane_ids(lanes.take(i + 1)) =~= before + lane_view);
            assert forall|k: int| 0 <= k < homes@.len() implies Some((#[trigger] homes@[k])@) == lane_of(lanes.take(i + 1), keys@[k]@) by {}
        }
    }
    assert(lanes.take(nl as int) =~= lanes);
    let ghost key_ids = ids_of(keys@);
    proof {
        lemma_first_ids_distinct(lane_ids(lanes));
    }
    let slice_list = diagram.slices.iter();
    let ns = slice_list.len();
    assert(slices.take(0) =~= Seq::<Slice>::empty());
    for a in 0..ns
        invariant
            ns == slices.len(),
            slice_list@.len() == ns,
            forall|k: int| 0 <= k < ns ==> *slice_list@[k] == slices[k],
            ids_of(keys@) == key_ids,
            forall|i: int, j: int| 0 <= i < j < key_ids.len() ==> key_ids[i] != key_ids[j],
            deps@.len() == keys@.len(),
            forall|k: int| 0 <= k < deps@.len() ==> ids_of((#[trigger] deps@[k])@) == temporal_sources(slices.take(a as int), keys@[k]@),
    {
        let slice = slice_list[a];
        proof {
            assert(slices.take(a + 1).drop_last() =~= slices.take(a as int));
            assert(slices.take(a + 1).last() == slices[a as int]);
        }
        let ghost cs = slice.connections@;
        let nc = slice.connections.len();
        assert(cs.take(0) =~= Seq::<Connector>::empty());
        for b in 0..nc
            invariant
                nc == cs.len(),
                cs == slice.connections@,
                ids_of(keys@) == key_ids,
                forall|i: int, j: int| 0 <= i < j < key_ids.len() ==> key_ids[i] != key_ids[j],
                deps@.len() == keys@.len(),
                forall|k: int| 0 <= k < deps@.len() ==> ids_of((#[trigger] deps@[k])@) == temporal_sources(slices.take(a as int), keys@[k]@)
                    + connection_sources(cs.take(b as int), keys@[k]@),
        {
            let c = &slice.connections[b];
            proof {
                assert forall|q: int| 0 <= q < keys@.len() implies #[trigger] connection_sources(cs.take(b + 1), keys@[q]@) == (if temporal(
                    entity_type(cs[b as int].from@),
                    entity_type(cs[b as int].to@),
                ) && cs[b as int].to@ == keys@[q]@ {
                    connection_sources(cs.take(b as int), keys@[q]@).push(cs[b as int].from@)
                } else {
                    connection_sources(cs.take(b as int), keys@[q]@)
                }) by {
                    lemma_connection_step(cs, b as int, keys@[q]@);
                }
            }
            if is_temporal_connection(&c.from, &c.to) {
                if let Some(k) = key_index(&keys, &c.to) {
                    let ghost old_deps = deps@;
                    let mut d = deps.remove(k);
                    d.push(c.from.clone());
                    deps.insert(k, d);
                    proof {
                        assert forall|q: int| 0 <= q < deps@.len() implies ids_of((#[trigger] deps@[q])@) == temporal_sources(slices.take(a as int), keys@[q]@)
                            + connection_sources(cs.take(b + 1), keys@[q]@) by {
                            if q == k {
                                assert(ids_of(deps@[q]@) =~= ids_of(old_deps[q]@).push(c.from@));
                                let ts = temporal_sources(slices.take(a as int), keys@[q]@);
                                let cs0 = connection_sources(cs.take(b as int), keys@[q]@);
                                assert((ts + cs0).push(c.from@) =~= ts + cs0.push(c.from@));
                            } else {
                                assert(deps@[q] == old_deps[q]);
                                if keys@[q]@ == c.to@ {
                                    assert(ids_of(keys@)[q] == ids_of(keys@)[k as int]);
                                    if q < k {
                                        assert(key_ids[q] != key_ids[k as int]);
                                    } else {
                                        assert(key_ids[k as int] != key_ids[q]);
                                    }
                                }
                            }
                        }
                    }
                } else {
                    proof {
                        assert forall|q: int| 0 <= q < deps@.len() implies ids_of((#[trigger] deps@[q])@) == temporal_sources(slices.take(a as int), keys@[q]@)
                            + connection_sources(cs.take(b + 1), keys@[q]@) by {
                            if keys@[q]@ == c.to@ {
                                assert(ids_of(keys@)[q] == c.to@);
                            }
                        }
                    }
                }
            }
        }
        proof {
            assert(cs.take(nc as int) =~= cs);
        }
    }
    assert(slices.take(ns as int) =~= slices);
    let mut graph: Vec<(EntityId, Vec<EntityId>)> = Vec::new();
    let mut lane_map: Vec<(EntityId, SwimlaneId)> = Vec::new();
    let n = keys.len();
    let mut d_rest = deps;
    let mut h_rest = homes;
    let mut k: usize = 0;
    while k < n
        invariant
            n == keys@.len(),
            k <= n,
            0 <= k,
            graph@.len() == k,
            lane_map@.len() == k,
            d_rest@.len() == n - k,
            h_rest@.len() == n - k,
            forall|q: int| 0 <= q < k ==> (#[trigger] graph@[q]).0@ == keys@[q]@ && ids_of(graph@[q].1@) == temporal_sources(slices, keys@[q]@),
            forall|q: int| 0 <= q < k ==> (#[trigger] lane_map@[q]).0@ == keys@[q]@ && Some(lane_map@[q].1@) == lane_of(lanes, keys@[q]@),
            forall|q: int| 0 <= q < n - k ==> ids_of((#[trigger] d_rest@[q])@) == temporal_sources(slices, keys@[q + k]@),
            forall|q: int| 0 <= q < n - k ==> Some((#[trigger] h_rest@[q])@) == lane_of(lanes, keys@[q + k]@),
        decreases n - k,
    {
        let ghost old_d = d_rest@;
        let ghost old_h = h_rest@;
        let d = d_rest.remove(0);
        let h = h_rest.remove(0);
        graph.push((keys[k].clone(), d));
        lane_map.push((keys[k].clone(), h));
        proof {
            assert forall|q: int| 0 <= q < n - (k + 1) implies ids_of((#[trigger] d_rest@[q])@) == temporal_sources(slices, keys@[q + k + 1]@) by {
                assert(d_rest@[q] == old_d[q + 1]);
            }
            assert forall|q: int| 0 <= q < n - (k + 1) implies Some((#[trigger] h_rest@[q])@) == lane_of(lanes, keys@[q + k + 1]@) by {
                assert(h_rest@[q] == old_h[q + 1]);
            }
        }
        k += 1;
    }
    proof {
        assert(graph_view(graph@) =~= first_ids(lane_ids(lanes)).map_values(|v: Seq<char>| (v, temporal_sources(slices, v))));
        assert(lane_map@.map_values(|e: (EntityId, SwimlaneId)| (e.0@, e.1@)) =~= first_ids(lane_ids(lanes)).map_values(
            |v: Seq<char>| (v, lane_of(lanes, v)->0),
        ));
    }
    (graph, lane_map)
}

/// The entities of a dependency graph, in order.
pub open spec fn nodes_of(g: Seq<(Seq<char>, Seq<Seq<char>>)>) -> Seq<Seq<char>> {
    g.map_values(|e: (Seq<char>, Seq<Seq<char>>)| e.0)
}

/// Whether `order` lists each entity of `g` once, each after every entity
/// it depends on.
pub open spec fn is_topological(g: Seq<(Seq<char>, Seq<Seq<char>>)>, order: Seq<Seq<char>>) -> bool {
    &&& order.len() == g.len()
    &&& forall|i: int, j: int| 0 <= i < j < order.len() ==> order[i] != order[j]
    &&& forall|i: int| 0 <= i < order.len() ==> nodes_of(g).contains(#[trigger] order[i])
    &&& forall|k: int, d: int| 0 <= k < g.len() && 0 <= d < g[k].1.len() ==> #[trigger] comes_before(order, g[k].1[d], g[k].0)
}

/// Whether `a` comes before `b` in `order`.
pub open spec fn comes_before(order: Seq<Seq<char>>, a: Seq<char>, b: Seq<char>) -> bool {
    exists|i: int, j: int| #![trigger order[i], order[j]] 0 <= i < j < order.len() && order[i] == a && order[j] == b
}

/// Whether the entities of `g` can be put in an order where each comes
/// after every entity it depends on.
pub open spec fn has_topological_order(g: Seq<(Seq<char>, Seq<Seq<char>>)>) -> bool {
    exists|order: Seq<Seq<char>>| is_topological(g, order)
}

/// The place of `d` among `keys`, or -1 when it is not there.
pub open spec fn key_place(keys: Seq<Seq<char>>, d: Seq<char>) -> int {
    if keys.contains(d) {
        choose|i: int| 0 <= i < keys.len() && keys[i] == d
    } else {
        -1
    }
}

/// The dependencies of entity `v` of `g` by place.
pub open spec fn dep_places(g: Seq<(Seq<char>, Seq<Seq<char>>)>, v: int) -> Seq<int> {
    g[v].1.map_values(|d: Seq<char>| key_place(nodes_of(g), d))
}

/// How many of the places `s` are not yet done (or name no entity).
pub open spec fn pending(s: Seq<int>, done: Seq<bool>) -> nat
    decreases s.len(),
{
    if s.len() == 0 {
        0
    } else {
        pending(s.drop_last(), done) + if s.last() < 0 || s.last() >= done.len() || !done[s.last()] {
            1nat
        } else {
            0nat
        }
    }
}

/// How often `u` occurs in `s`.
pub open spec fn occurrences(s: Seq<int>, u: int) -> nat
    decreases s.len(),
{
    if s.len() == 0 {
        0
    } else {
        occurrences(s.drop_last(), u) + if s.last() == u {
            1nat
        } else {
            0nat
        }
    }
}

/// The entities that depend on the entity at place `u`, one for each time
/// they name it, in order.
pub open spec fn dependents_of(ds: Seq<Seq<int>>, u: int) -> Seq<int>
    decreases ds.len(),
{
    if ds.len() == 0 {
        Seq::empty()
    } else {
        dependents_of(ds.drop_last(), u) + Seq::new(occurrences(ds.last(), u), |i: int| ds.len() - 1)
    }
}

/// Marking `x` done leaves its occurrences no longer pending.
proof fn lemma_pending_done(s: Seq<int>, done: Seq<bool>, x: int)
    requires
        0 <= x < done.len(),
        !done[x],
    ensures
        pending(s, done.update(x, true)) + occurrences(s, x) == pending(s, done),
        occurrences(s, x) <= pending(s, done),
    decreases s.len(),
{
    if s.len() > 0 {
        lemma_pending_done(s.drop_last(), done, x);
    }
}

/// Nothing pending: every place names a done entity.
proof fn lemma_nothing_pending(s: Seq<int>, done: Seq<bool>)
    requires
        pending(s, done) == 0,
    ensures
        forall|t: int| 0 <= t < s.len() ==> 0 <= #[trigger] s[t] < done.len() && done[s[t]],
    decreases s.len(),
{
    if s.len() > 0 {
        lemma_nothing_pending(s.drop_last(), done);
        assert forall|t: int| 0 <= t < s.len() implies 0 <= #[trigger] s[t] < done.len() && done[s[t]] by {
            if t < s.len() - 1 {
                assert(s[t] == s.drop_last()[t]);
            }
        }
    }
}

/// Some place pending: one names no done entity.
proof fn lemma_something_pending(s: Seq<int>, done: Seq<bool>) -> (t: int)
    requires
        pending(s, done) > 0,
    ensures
        0 <= t < s.len(),
        s[t] < 0 || s[t] >= done.len() || !done[s[t]],
    decreases s.len(),
{
    let l = s.last();
    if l < 0 || l >= done.len() || !done[l] {
        s.len() - 1
    } else {
        let t = lemma_something_pending(s.drop_last(), done);
        assert(s[t] == s.drop_last()[t]);
        t
    }
}

/// No more pending than places.
proof fn lemma_pending_le(s: Seq<int>, done: Seq<bool>)
    ensures
        pending(s, done) <= s.len(),
    decreases s.len(),
{
    if s.len() > 0 {
        lemma_pending_le(s.drop_last(), done);
    }
}

/// Entity `w` occurs among the dependents of `u` once for each time it
/// names `u`.
proof fn lemma_dependents_count(ds: Seq<Seq<int>>, u: int, w: int)
    ensures
        occurrences(dependents_of(ds, u), w) == if 0 <= w < ds.len() {
            occurrences(ds[w], u)
        } else {
            0
        },
        forall|i: int| 0 <= i < dependents_of(ds, u).len() ==> 0 <= #[trigger] dependents_of(ds, u)[i] < ds.len(),
    decreases ds.len(),
{
    if ds.len() > 0 {
        let d0 = ds.drop_last();
        lemma_dependents_count(d0, u, w);
        let tail = Seq::new(occurrences(ds.last(), u), |i: int| ds.len() - 1);
        lemma_occurrences_concat(dependents_of(d0, u), tail, w);
        lemma_occurrences_repeat(ds.len() - 1, occurrences(ds.last(), u), w);
        assert forall|i: int| 0 <= i < dependents_of(ds, u).len() implies 0 <= #[trigger] dependents_of(ds, u)[i] < ds.len() by {
            if i < dependents_of(d0, u).len() {
                assert(dependents_of(ds, u)[i] == dependents_of(d0, u)[i]);
            }
        }
    }
}

/// Occurrences in a concatenation add up.
proof fn lemma_occurrences_concat(a: Seq<int>, b: Seq<int>, w: int)
    ensures
        occurrences(a + b, w) == occurrences(a, w) + occurrences(b, w),
    decreases b.len(),
{
    if b.len() > 0 {
        lemma_occurrences_concat(a, b.drop_last(), w);
        assert((a + b).drop_last() =~= a + b.drop_last());
    } else {
        assert(a + b =~= a);
    }
}

/// `v` repeated `k` times holds `w` `k` times if it is `v`, else never.
proof fn lemma_occurrences_repeat(v: int, k: nat, w: int)
    ensures
        occurrences(Seq::new(k, |i: int| v), w) == if v == w {
            k
        } else {
            0
        },
    decreases k,
{
    if k > 0 {
        lemma_occurrences_repeat(v, (k - 1) as nat, w);
        assert(Seq::new(k, |i: int| v).drop_last() =~= Seq::new((k - 1) as nat, |i: int| v));
    }
}

/// The dependencies of every entity of `g` by place.
pub open spec fn all_places(g: Seq<(Seq<char>, Seq<Seq<char>>)>) -> Seq<Seq<int>> {
    Seq::new(g.len(), |v: int| dep_places(g, v))
}

/// Numbers as integers.
pub open spec fn ints(v: Seq<usize>) -> Seq<int> {
    v.map_values(|x: usize| x as int)
}

/// Whether the entities of `g` are all different.
pub open spec fn distinct_nodes(g: Seq<(Seq<char>, Seq<Seq<char>>)>) -> bool {
    forall|i: int, j: int| 0 <= i < j < g.len() ==> g[i].0 != g[j].0
}

/// With distinct keys, the place of a key is where it is.
proof fn lemma_key_place(keys: Seq<Seq<char>>, k: int)
    requires
        forall|i: int, j: int| 0 <= i < j < keys.len() ==> keys[i] != keys[j],
        0 <= k < keys.len(),
    ensures
        key_place(keys, keys[k]) == k,
{
    assert(keys.contains(keys[k]));
    let c = choose|i: int| 0 <= i < keys.len() && keys[i] == keys[k];
    if c < k {
        assert(keys[c] != keys[k]);
    } else if c > k {
        assert(keys[k] != keys[c]);
    }
}

/// The in-degree of each entity (how many dependencies it names) and the
/// entities that depend on each, by place.
fn build_dependents(graph: &Vec<(EntityId, Vec<EntityId>)>, keys: &Vec<EntityId>) -> (r: (Vec<usize>, Vec<Vec<usize>>))
    requires
        distinct_nodes(graph_view(graph@)),
        ids_of(keys@) == nodes_of(graph_view(graph@)),
    ensures
        r.0@.len() == graph@.len(),
        r.1@.len() == graph@.len(),
        forall|v: int| 0 <= v < graph@.len() ==> (#[trigger] r.0@[v]) == all_places(graph_view(graph@))[v].len(),
        forall|u: int| 0 <= u < graph@.len() ==> ints((#[trigger] r.1@[u])@) == dependents_of(all_places(graph_view(graph@)), u),
{
    let ghost g = graph_view(graph@);
    let ghost ds = all_places(g);
    let n = graph.len();
    let mut in_degree: Vec<usize> = Vec::new();
    let mut dependents: Vec<Vec<usize>> = Vec::new();
    for v in 0..n
        invariant
            n == graph@.len(),
            g == graph_view(graph@),
            ds == all_places(g),
            in_degree@.len() == v,
            dependents@.len() == v,
            forall|q: int| 0 <= q < v ==> (#[trigger] in_degree@[q]) == ds[q].len(),
            forall|q: int| 0 <= q < v ==> (#[trigger] dependents@[q])@.len() == 0,
    {
        in_degree.push(graph[v].1.len());
        dependents.push(Vec::new());
    }
    assert(ds.take(0) =~= Seq::<Seq<int>>::empty());
    assert forall|u: int| 0 <= u < n implies ints((#[trigger] dependents@[u])@) == dependents_of(ds.take(0), u) by {
        assert(ints(dependents@[u]@) =~= Seq::<int>::empty());
    }
    for v in 0..n
        invariant
            n == graph@.len(),
            g == graph_view(graph@),
            ds == all_places(g),
            distinct_nodes(g),
            ids_of(keys@) == nodes_of(g),
            in_degree@.len() == n,
            dependents@.len() == n,
            forall|q: int| 0 <= q < n ==> (#[trigger] in_degree@[q]) == ds[q].len(),
            forall|u: int| 0 <= u < n ==> ints((#[trigger] dependents@[u])@) == dependents_of(ds.take(v as int), u),
    {
        let deps = &graph[v].1;
        let nd = deps.len();
        let ghost dv = ds[v as int];
        proof {
            assert(ds.take(v + 1).drop_last() =~= ds.take(v as int));
            assert(ds.take(v + 1).last() == dv);
            assert(dv.len() == nd);
            assert forall|u: int| 0 <= u < n implies ints((#[trigger] dependents@[u])@) == dependents_of(ds.take(v as int), u) + Seq::new(
                occurrences(dv.take(0), u),
                |i: int| v as int,
            ) by {
                assert(dv.take(0) =~= Seq::<int>::empty());
                assert(Seq::new(occurrences(dv.take(0), u), |i: int| v as int) =~= Seq::<int>::empty());
                assert(dependents_of(ds.take(v as int), u) + Seq::<int>::empty() =~= dependents_of(ds.take(v as int), u));
            }
        }
        for t in 0..nd
            invariant
                n == graph@.len(),
                v < n,
                nd == deps@.len(),
                deps == graph@[v as int].1,
                dv == ds[v as int],
                dv.len() == nd,
                g == graph_view(graph@),
                ds == all_places(g),
                distinct_nodes(g),
                ids_of(keys@) == nodes_of(g),
                dependents@.len() == n,
                forall|u: int| 0 <= u < n ==> ints((#[trigger] dependents@[u])@) == dependents_of(ds.take(v as int), u) + Seq::new(
                    occurrences(dv.take(t as int), u),
                    |i: int| v as int,
                ),
        {
            let ghost place = dv[t as int];
            proof {
                assert(dv.take(t + 1).drop_last() =~= dv.take(t as int));
                assert(dv.take(t + 1).last() == place);
                assert(place == key_place(nodes_of(g), deps@[t as int]@));
            }
            match key_index(keys, &deps[t]) {
                Some(u) => {
                    proof {
                        assert(ids_of(keys@)[u as int] == deps@[t as int]@);
                        assert(forall|i: int, j: int| 0 <= i < j < nodes_of(g).len() ==> nodes_of(g)[i] != nodes_of(g)[j]);
                        lemma_key_place(nodes_of(g), u as int);
                        assert(place == u);
                    }
                    let ghost old_dep = dependents@;
                    let mut list = dependents.remove(u);
                    list.push(v);
                    dependents.insert(u, list);
                    proof {
                        assert forall|w: int| 0 <= w < n implies ints((#[trigger] dependents@[w])@) == dependents_of(ds.take(v as int), w)
                            + Seq::new(occurrences(dv.take(t + 1), w), |i: int| v as int) by {
                            if w == u {
                                assert(ints(dependents@[w]@) =~= ints(old_dep[w]@).push(v as int));
                                assert(Seq::new(occurrences(dv.take(t + 1), w), |i: int| v as int) =~= Seq::new(
                                    occurrences(dv.take(t as int), w),
                                    |i: int| v as int,
                                ).push(v as int));
                                assert((dependents_of(ds.take(v as int), w) + Seq::new(occurrences(dv.take(t as int), w), |i: int| v as int)).push(
                                    v as int,
                                ) =~= dependents_of(ds.take(v as int), w) + Seq::new(occurrences(dv.take(t as int), w), |i: int| v as int).push(
                                    v as int,
                                ));
                            } else {
                                assert(dependents@[w] == old_dep[w]);
                            }
                        }
                    }
                },
                None => {
                    proof {
                        assert(!nodes_of(g).contains(deps@[t as int]@));
                        assert(place == -1);
                        assert forall|w: int| 0 <= w < n implies ints((#[trigger] dependents@[w])@) == dependents_of(ds.take(v as int), w)
                            + Seq::new(occurrences(dv.take(t + 1), w), |i: int| v as int) by {}
                    }
                },
            }
        }
        proof {
            assert(dv.take(nd as int) =~= dv);
        }
    }
    assert(ds.take(n as int) =~= ds);
    (in_degree, dependents)
}

/// The first place at or after `start` in `order` whose entity is not
/// done, when there is one there.
proof fn lemma_first_not_done(order: Seq<Seq<char>>, keys: Seq<Seq<char>>, done: Seq<bool>, start: int) -> (i: int)
    requires
        0 <= start <= order.len(),
        exists|j: int| start <= j < order.len() && !done[key_place(keys, #[trigger] order[j])],
    ensures
        start <= i < order.len(),
        !done[key_place(keys, order[i])],
        forall|j: int| start <= j < i ==> done[key_place(keys, #[trigger] order[j])],
    decreases order.len() - start,
{
    if !done[key_place(keys, order[start])] {
        start
    } else {
        let j = choose|j: int| start <= j < order.len() && !done[key_place(keys, #[trigger] order[j])];
        assert(j != start);
        lemma_first_not_done(order, keys, done, start + 1)
    }
}

/// When an entity is not done and every not-done entity still waits for a
/// dependency that is not done, there is no temporal order.
proof fn lemma_no_order(g: Seq<(Seq<char>, Seq<Seq<char>>)>, done: Seq<bool>, x: int)
    requires
        distinct_nodes(g),
        done.len() == g.len(),
        0 <= x < g.len(),
        !done[x],
        forall|v: int| 0 <= v < g.len() && !done[v] ==> pending(#[trigger] all_places(g)[v], done) > 0,
    ensures
        !has_topological_order(g),
{
    let keys = nodes_of(g);
    assert(forall|i: int, j: int| 0 <= i < j < keys.len() ==> keys[i] != keys[j]);
    if has_topological_order(g) {
        let order = choose|order: Seq<Seq<char>>| is_topological(g, order);
        // Every entity appears in the order.
        assert(order.no_duplicates());
        order.unique_seq_to_set();
        keys.unique_seq_to_set();
        assert(order.to_set().subset_of(keys.to_set())) by {
            assert forall|e: Seq<char>| order.to_set().contains(e) implies keys.to_set().contains(e) by {
                let i = choose|i: int| 0 <= i < order.len() && order[i] == e;
                assert(keys.contains(order[i]));
            }
        }
        vstd::set_lib::lemma_subset_equality(order.to_set(), keys.to_set());
        assert(keys.to_set().contains(keys[x]));
        assert(order.to_set().contains(keys[x]));
        let jx = choose|j: int| 0 <= j < order.len() && order[j] == keys[x];
        lemma_key_place(keys, x);
        assert(!done[key_place(keys, order[jx])]);
        let i = lemma_first_not_done(order, keys, done, 0);
        let v = key_place(keys, order[i]);
        assert(keys.contains(order[i]));
        assert(0 <= v < keys.len() && keys[v] == order[i]);
        let t = lemma_something_pending(all_places(g)[v], done);
        let d = g[v].1[t];
        assert(all_places(g)[v][t] == key_place(keys, d));
        assert(comes_before(order, g[v].1[t], g[v].0));
        let (a, b) = choose|a: int, b: int| #![trigger order[a], order[b]] 0 <= a < b < order.len() && order[a] == g[v].1[t] && order[b] == g[v].0;
        assert(order[b] == keys[v]);
        if b != i {
            if b < i {
                assert(order[b] != order[i]);
            } else {
                assert(order[i] != order[b]);
            }
        }
        assert(done[key_place(keys, order[a])]);
        assert(keys.contains(order[a]));
    }
}

/// Puts the entities of `graph` in temporal order, each after every entity
/// it depends on; a circular dependency (or a dependency on an entity the
/// graph does not have) leaves no such order and is an error.
#[verifier::rlimit(50)]
pub fn topological_sort_impl(graph: &Vec<(EntityId, Vec<EntityId>)>) -> (r: Result<Vec<EntityId>, LayoutError>)
    requires
        distinct_nodes(graph_view(graph@)),
    ensures
        r is Ok <==> has_topological_order(graph_view(graph@)),
        r matches Ok(order) ==> is_topological(graph_view(graph@), ids_of(order@)),
        r matches Err(e) ==> e is CircularDependency,
{
    let ghost g = graph_view(graph@);
    let ghost ds = all_places(g);
    let ghost keys_v = nodes_of(g);
    let n = graph.len();
    let mut keys: Vec<EntityId> = Vec::new();
    for i in 0..n
        invariant
            n == graph@.len(),
            g == graph_view(graph@),
            keys_v == nodes_of(g),
            ids_of(keys@) == keys_v.take(i as int),
    {
        let ghost before = keys@;
        keys.push(graph[i].0.clone());
        assert(keys_v[i as int] == graph@[i as int].0@);
        assert(ids_of(keys@) =~= ids_of(before).push(graph@[i as int].0@));
        assert(ids_of(keys@) =~= keys_v.take(i + 1));
    }
    assert(keys_v.take(n as int) =~= keys_v);
    let (mut in_degree, dependents) = build_dependents(graph, &keys);
    let mut done: Vec<bool> = Vec::new();
    let mut queue: Vec<usize> = Vec::new();
    for v in 0..n
        invariant
            n == graph@.len(),
            in_degree@.len() == n,
            done@.len() == v,
            forall|q: int| 0 <= q < v ==> !done@[q],
            forall|q: int| 0 <= q < queue@.len() ==> (#[trigger] queue@[q]) < v && in_degree@[queue@[q] as int] == 0,
            forall|a: int, b: int| 0 <= a < b < queue@.len() ==> queue@[a] != queue@[b],
            forall|q: int| 0 <= q < v && in_degree@[q] == 0 ==> queue@.contains(q as usize),
    {
        let ghost old_queue = queue@;
        done.push(false);
        if in_degree[v] == 0 {
            queue.push(v);
            assert(queue@[old_queue.len() as int] == v);
        }
        assert forall|q: int| 0 <= q < v + 1 && in_degree@[q] == 0 implies queue@.contains(q as usize) by {
            if q < v {
                let j = choose|j: int| 0 <= j < old_queue.len() && old_queue[j] == q as usize;
                assert(queue@[j] == old_queue[j]);
            }
        }
    }
    proof {
        lemma_num_settled_none(done@);
        assert forall|v: int| 0 <= v < n implies (#[trigger] in_degree@[v]) == pending(ds[v], done@) by {
            lemma_pending_none(ds[v], done@);
        }
    }
    let mut result: Vec<usize> = Vec::new();
    while queue.len() > 0
        invariant
            n == graph@.len(),
            g == graph_view(graph@),
            ds == all_places(g),
            keys_v == nodes_of(g),
            distinct_nodes(g),
            ids_of(keys@) == keys_v,
            in_degree@.len() == n,
            dependents@.len() == n,
            forall|u: int| 0 <= u < n ==> ints((#[trigger] dependents@[u])@) == dependents_of(ds, u),
            done@.len() == n,
            result@.len() == num_settled(done@),
            forall|v: int| 0 <= v < n ==> (#[trigger] in_degree@[v]) == pending(ds[v], done@),
            forall|q: int| 0 <= q < queue@.len() ==> (#[trigger] queue@[q]) < n && !done@[queue@[q] as int] && in_degree@[queue@[q] as int] == 0,
            forall|a: int, b: int| 0 <= a < b < queue@.len() ==> queue@[a] != queue@[b],
            forall|v: int| 0 <= v < n && !done@[v] && in_degree@[v] == 0 ==> queue@.contains(v as usize),
            forall|v: int| 0 <= v < n && #[trigger] done@[v] ==> pending(ds[v], done@) == 0,
            forall|i: int| 0 <= i < result@.len() ==> (#[trigger] result@[i]) < n && done@[result@[i] as int],
            forall|v: int| 0 <= v < n && #[trigger] done@[v] ==> result@.contains(v as usize),
            forall|a: int, b: int| 0 <= a < b < result@.len() ==> result@[a] != result@[b],
            forall|i: int, t: int|
                0 <= i < result@.len() && 0 <= t < ds[result@[i] as int].len() ==> exists|j: int|
                    0 <= j < i && result@[j] as int == #[trigger] ds[#[trigger] result@[i] as int][t],
        decreases n - result@.len(),
    {
        proof {
            lemma_num_settled_le(done@);
        }
        let ghost old_queue = queue@;
        let x = queue.pop().unwrap();
        let ghost old_done = done@;
        let ghost old_result = result@;
        proof {
            assert(x == old_queue[old_queue.len() - 1]);
            assert(queue@ =~= old_queue.drop_last());
            assert(pending(ds[x as int], old_done) == 0);
            lemma_nothing_pending(ds[x as int], old_done);
            lemma_num_settled_set(old_done, x as int);
        }
        result.push(x);
        done.set(x, true);
        proof {
            assert forall|i: int, t: int|
                0 <= i < result@.len() && 0 <= t < ds[result@[i] as int].len() implies exists|j: int|
                    0 <= j < i && result@[j] as int == #[trigger] ds[#[trigger] result@[i] as int][t] by {
                if i < old_result.len() {
                    assert(result@[i] == old_result[i]);
                    let j = choose|j: int| 0 <= j < i && old_result[j] as int == #[trigger] ds[#[trigger] old_result[i] as int][t];
                    assert(result@[j] == old_result[j]);
                } else {
                    let d = ds[x as int][t];
                    assert(old_done[d]);
                    assert(old_result.contains(d as usize));
                    let j = choose|j: int| 0 <= j < old_result.len() && old_result[j] == d as usize;
                    assert(result@[j] == old_result[j]);
                }
            }
            assert forall|v: int| 0 <= v < n && #[trigger] done@[v] implies result@.contains(v as usize) by {
                if v == x {
                    assert(result@[old_result.len() as int] == x);
                } else {
                    assert(old_done[v]);
                    let j = choose|j: int| 0 <= j < old_result.len() && old_result[j] == v as usize;
                    assert(result@[j] == old_result[j]);
                }
            }
            assert forall|a: int, b: int| 0 <= a < b < result@.len() implies result@[a] != result@[b] by {
                if b == old_result.len() {
                    assert(old_done[old_result[a] as int]);
                }
            }
            assert forall|v: int| 0 <= v < n implies pending(ds[v], done@) + occurrences(ds[v], x as int) == pending(ds[v], old_done) by {
                lemma_pending_done(ds[v], old_done, x as int);
            }
            assert forall|v: int| 0 <= v < n && !done@[v] && in_degree@[v] == 0 implies queue@.contains(v as usize) by {
                assert(old_queue.contains(v as usize));
                let j = choose|j: int| 0 <= j < old_queue.len() && old_queue[j] == v as usize;
                assert(j != old_queue.len() - 1);
                assert(queue@[j] == old_queue[j]);
            }
            assert forall|q: int| 0 <= q < queue@.len() implies (#[trigger] queue@[q]) < n && !done@[queue@[q] as int] && in_degree@[queue@[q] as int] == 0 by {
                assert(queue@[q] == old_queue[q]);
                assert(old_queue[q] != old_queue[old_queue.len() - 1]);
            }
        }
        let list = &dependents[x];
        let nl = list.len();
        let ghost dx = ints(list@);
        for k in 0..nl
            invariant
                n == graph@.len(),
                g == graph_view(graph@),
                ds == all_places(g),
                x < n,
                nl == list@.len(),
                dx == ints(list@),
                dx == dependents_of(ds, x as int),
                done@.len() == n,
                old_done.len() == n,
                done@ == old_done.update(x as int, true),
                !old_done[x as int],
                pending(ds[x as int], old_done) == 0,
                forall|v: int| 0 <= v < n && #[trigger] old_done[v] ==> pending(ds[v], old_done) == 0,
                in_degree@.len() == n,
                forall|v: int| 0 <= v < n ==> (#[trigger] in_degree@[v]) == pending(ds[v], old_done) - occurrences(dx.take(k as int), v),
                forall|v: int| 0 <= v < n ==> pending(ds[v], done@) + occurrences(ds[v], x as int) == pending(ds[v], old_done),
                forall|q: int| 0 <= q < queue@.len() ==> (#[trigger] queue@[q]) < n && !done@[queue@[q] as int] && in_degree@[queue@[q] as int] == 0,
                forall|a: int, b: int| 0 <= a < b < queue@.len() ==> queue@[a] != queue@[b],
                forall|v: int| 0 <= v < n && !done@[v] && in_degree@[v] == 0 ==> queue@.contains(v as usize),
        {
            let w = list[k];
            proof {
                lemma_dependents_count(ds, x as int, w as int);
                assert(dx[k as int] == w as int);
                assert(dx.take(k + 1) =~= dx.take(k as int).push(w as int));
                assert(dx.take(k + 1).drop_last() =~= dx.take(k as int));
                assert(occurrences(dx.take(k + 1), w as int) == occurrences(dx.take(k as int), w as int) + 1);
                lemma_occurrences_prefix(dx, k as int + 1, w as int);
                assert(dependents_of(ds, x as int)[k as int] == w as int);
                assert(0 <= w < n);
                lemma_pending_done(ds[w as int], old_done, x as int);
                assert(w != x) by {
                    if w == x {
                        lemma_pending_done(ds[x as int], old_done, x as int);
                    }
                }
                assert(!old_done[w as int]);
                assert(in_degree@[w as int] >= 1);
            }
            let dw = in_degree[w];
            let ghost q0 = queue@;
            in_degree.set(w, dw - 1);
            if dw - 1 == 0 {
                queue.push(w);
                assert(queue@[q0.len() as int] == w);
            }
            proof {
                assert forall|v: int| 0 <= v < n && !done@[v] && in_degree@[v] == 0 implies queue@.contains(v as usize) by {
                    if v != w {
                        let j = choose|j: int| 0 <= j < q0.len() && q0[j] == v as usize;
                        assert(queue@[j] == q0[j]);
                    }
                }
            }
        }
        proof {
            assert(dx.take(nl as int) =~= dx);
            assert forall|v: int| 0 <= v < n implies (#[trigger] in_degree@[v]) == pending(ds[v], done@) by {
                lemma_dependents_count(ds, x as int, v);
            }
            assert forall|v: int| 0 <= v < n && #[trigger] done@[v] implies pending(ds[v], done@) == 0 by {
                if v != x {
                    assert(old_done[v]);
                }
            }
        }
    }
    proof {
        lemma_num_settled_all(done@);
        lemma_num_settled_le(done@);
    }
    if result.len() != n {
        proof {
            let x = choose|i: int| 0 <= i < done@.len() && !done@[i];
            assert forall|v: int| 0 <= v < g.len() && !done@[v] implies pending(#[trigger] all_places(g)[v], done@) > 0 by {
                if pending(ds[v], done@) == 0 {
                    assert(in_degree@[v] == 0);
                    assert(queue@.contains(v as usize));
                }
            }
            lemma_no_order(g, done@, x);
        }
        return Err(LayoutError::CircularDependency);
    }
    let mut order: Vec<EntityId> = Vec::new();
    for i in 0..n
        invariant
            n == graph@.len(),
            result@.len() == n,
            ids_of(keys@) == keys_v,
            keys@.len() == n,
            forall|q: int| 0 <= q < n ==> (#[trigger] result@[q]) < n,
            order@.len() == i,
            forall|q: int| 0 <= q < i ==> (#[trigger] order@[q])@ == keys_v[result@[q] as int],
    {
        order.push(keys[result[i]].clone());
        proof {
            assert(ids_of(keys@)[result@[i as int] as int] == keys@[result@[i as int] as int]@);
        }
    }
    proof {
        let o = ids_of(order@);
        assert(forall|i: int, j: int| 0 <= i < j < keys_v.len() ==> keys_v[i] != keys_v[j]);
        assert forall|i: int, j: int| 0 <= i < j < o.len() implies o[i] != o[j] by {
            assert(o[i] == keys_v[result@[i] as int]);
            assert(o[j] == keys_v[result@[j] as int]);
            assert(result@[i] != result@[j]);
        }
        assert forall|i: int| 0 <= i < o.len() implies keys_v.contains(#[trigger] o[i]) by {
            assert(o[i] == keys_v[result@[i] as int]);
        }
        assert forall|k: int, d: int| 0 <= k < g.len() && 0 <= d < g[k].1.len() implies #[trigger] comes_before(o, g[k].1[d], g[k].0) by {
            assert(done@[k]);
            assert(result@.contains(k as usize));
            let j = choose|j: int| 0 <= j < result@.len() && result@[j] == k as usize;
            assert(ds[k][d] == key_place(keys_v, g[k].1[d]));
            let i = choose|i: int| 0 <= i < j && result@[i] as int == #[trigger] ds[#[trigger] result@[j] as int][d];
            assert(o[j] == keys_v[k]);
            let p = result@[i] as int;
            lemma_nothing_pending(ds[k], done@);
            assert(0 <= ds[k][d] < n);
            assert(keys_v.contains(g[k].1[d]));
            assert(keys_v[p] == g[k].1[d]);
            assert(o[i] == keys_v[p]);
            assert(0 <= i < j < o.len() && o[i] == g[k].1[d] && o[j] == g[k].0);
        }
        assert(o.len() == g.len());
        assert(forall|i: int| 0 <= i < o.len() ==> nodes_of(g).contains(#[trigger] o[i]));
        assert(forall|i: int, j: int| 0 <= i < j < o.len() ==> o[i] != o[j]);
        assert(is_topological(g, o));
    }
    Ok(order)
}

/// Nothing done: every place pending.
proof fn lemma_pending_none(s: Seq<int>, done: Seq<bool>)
    requires
        forall|i: int| 0 <= i < done.len() ==> !done[i],
    ensures
        pending(s, done) == s.len(),
    decreases s.len(),
{
    if s.len() > 0 {
        lemma_pending_none(s.drop_last(), done);
    }
}

/// Occurrences in a prefix are no more than in the whole.
proof fn lemma_occurrences_prefix(s: Seq<int>, k: int, w: int)
    requires
        0 <= k <= s.len(),
    ensures
        occurrences(s.take(k), w) <= occurrences(s, w),
    decreases s.len() - k,
{
    if k < s.len() {
        lemma_occurrences_prefix(s, k + 1, w);
        assert(s.take(k + 1).drop_last() =~= s.take(k));
    } else {
        assert(s.take(k) =~= s);
    }
}

/// Whether entity `a` of `g` depends on `b`.
pub open spec fn depends_on(g: Seq<(Seq<char>, Seq<Seq<char>>)>, a: Seq<char>, b: Seq<char>) -> bool {
    exists|k: int| 0 <= k < g.len() && g[k].0 == a && #[trigger] g[k].1.contains(b)
}

/// Whether the `i`-th entity of the chain `cs` depends on the next.
pub open spec fn chain_step(g: Seq<(Seq<char>, Seq<Seq<char>>)>, cs: Seq<Seq<char>>, i: int) -> bool {
    depends_on(g, cs[i], cs[i + 1])
}

/// Whether `cs` is a chain of dependencies from `a` to `b`: it starts at
/// `a`, ends at `b`, and each entity depends on the next.
pub open spec fn dependency_chain(g: Seq<(Seq<char>, Seq<Seq<char>>)>, cs: Seq<Seq<char>>, a: Seq<char>, b: Seq<char>) -> bool {
    &&& cs.len() >= 1
    &&& cs[0] == a
    &&& cs.last() == b
    &&& forall|i: int| 0 <= i < cs.len() - 1 ==> #[trigger] chain_step(g, cs, i)
}

/// Whether `b` can be reached from `a` by following dependencies in `g`.
pub open spec fn reaches(g: Seq<(Seq<char>, Seq<Seq<char>>)>, a: Seq<char>, b: Seq<char>) -> bool {
    exists|cs: Seq<Seq<char>>| #[trigger] dependency_chain(g, cs, a, b)
}

/// Everything reaches itself.
proof fn lemma_reaches_self(g: Seq<(Seq<char>, Seq<Seq<char>>)>, a: Seq<char>)
    ensures
        reaches(g, a, a),
{
    assert(dependency_chain(g, seq![a], a, a));
}

/// A chain extends by one more dependency.
proof fn lemma_reaches_step(g: Seq<(Seq<char>, Seq<Seq<char>>)>, a: Seq<char>, b: Seq<char>, c: Seq<char>)
    requires
        reaches(g, a, b),
        depends_on(g, b, c),
    ensures
        reaches(g, a, c),
{
    let cs = choose|cs: Seq<Seq<char>>| #[trigger] dependency_chain(g, cs, a, b);
    let ds = cs.push(c);
    assert forall|i: int| 0 <= i < ds.len() - 1 implies #[trigger] chain_step(g, ds, i) by {
        if i < cs.len() - 1 {
            assert(chain_step(g, cs, i));
        }
    }
    assert(dependency_chain(g, ds, a, c));
}

/// Whether, for each recorded edge, its source entity can be reached from
/// its target: the edge closes a cycle.
pub open spec fn cuts_on_cycles(g: Seq<(Seq<char>, Seq<Seq<char>>)>, rem: Seq<(usize, usize)>) -> bool {
    forall|k: int|
        0 <= k < rem.len() ==> reaches(g, nodes_of(g)[(#[trigger] rem[k]).1 as int], nodes_of(g)[rem[k].0 as int])
}

/// Whether `rem` records the edge from the entity at place `u` to the one
/// at place `d`.
pub open spec fn recorded(rem: Seq<(usize, usize)>, u: int, d: int) -> bool {
    exists|k: int| 0 <= k < rem.len() && (#[trigger] rem[k]).0 as int == u && rem[k].1 as int == d
}

/// The state of the depth-first search over the places `ds`: `visited`
/// are the entities on the current `path` and those `finished` (in the
/// order they finished); each finished entity's dependencies are recorded
/// in `rem` or finished before it.
pub open spec fn search_state(ds: Seq<Seq<int>>, visited: Seq<bool>, path: Seq<bool>, finished: Seq<int>, rem: Seq<(usize, usize)>) -> bool {
    &&& visited.len() == ds.len()
    &&& path.len() == ds.len()
    &&& forall|v: int| 0 <= v < ds.len() ==> (visited[v] <==> (path[v] || finished.contains(v)))
    &&& forall|v: int| 0 <= v < ds.len() && #[trigger] path[v] ==> !finished.contains(v)
    &&& forall|p: int| 0 <= p < finished.len() ==> 0 <= #[trigger] finished[p] < ds.len()
    &&& forall|p: int, q: int| 0 <= p < q < finished.len() ==> finished[p] != finished[q]
    &&& forall|p: int, t: int|
        0 <= p < finished.len() && 0 <= t < ds[finished[p]].len() && #[trigger] ds[#[trigger] finished[p]][t] >= 0 ==> recorded(
            rem,
            finished[p],
            ds[finished[p]][t],
        ) || exists|q: int| 0 <= q < p && finished[q] == ds[finished[p]][t]
    &&& forall|k: int| 0 <= k < rem.len() ==> (#[trigger] rem[k]).0 < ds.len() && rem[k].1 < ds.len()
}

/// Searches depth first from `node`, recording each edge that leads back
/// to an entity on the current path.
fn find_cycles_from(
    graph: &Vec<(EntityId, Vec<EntityId>)>,
    keys: &Vec<EntityId>,
    node: usize,
    visited: &mut Vec<bool>,
    path: &mut Vec<bool>,
    back_edges: &mut Vec<(usize, usize)>,
    finished: &mut Ghost<Seq<int>>,
    Ghost(unvisited): Ghost<int>,
)
    requires
        unvisited == graph@.len() - num_settled(old(visited)@),
        distinct_nodes(graph_view(graph@)),
        ids_of(keys@) == nodes_of(graph_view(graph@)),
        node < graph@.len(),
        !old(visited)@[node as int],
        search_state(all_places(graph_view(graph@)), old(visited)@, old(path)@, old(finished)@, old(back_edges)@),
        cuts_on_cycles(graph_view(graph@), old(back_edges)@),
        forall|v: int|
            0 <= v < graph@.len() && #[trigger] old(path)@[v] ==> reaches(
                graph_view(graph@),
                nodes_of(graph_view(graph@))[v],
                nodes_of(graph_view(graph@))[node as int],
            ),
    ensures
        search_state(all_places(graph_view(graph@)), final(visited)@, final(path)@, final(finished)@, final(back_edges)@),
        cuts_on_cycles(graph_view(graph@), final(back_edges)@),
        final(visited)@[node as int],
        final(path)@ == old(path)@,
        forall|v: int| 0 <= v < graph@.len() && old(visited)@[v] ==> final(visited)@[v],
        final(finished)@.take(old(finished)@.len() as int) == old(finished)@,
        old(finished)@.len() <= final(finished)@.len(),
        final(back_edges)@.take(old(back_edges)@.len() as int) == old(back_edges)@,
        old(back_edges)@.len() <= final(back_edges)@.len(),
    decreases unvisited,
{
    let ghost g = graph_view(graph@);
    let ghost ds = all_places(g);
    let ghost n = graph@.len();
    let ghost v0 = visited@;
    let ghost f0 = finished@;
    let ghost r0 = back_edges@;
    let ghost p0 = path@;
    proof {
        lemma_num_settled_set(visited@, node as int);
        lemma_num_settled_le(visited@);
        assert(!f0.contains(node as int));
    }
    visited.set(node, true);
    path.set(node, true);
    let deps = &graph[node].1;
    let nd = deps.len();
    let ghost dn = ds[node as int];
    assert(dn.len() == nd);
    for t in 0..nd
        invariant
            n == graph@.len(),
            g == graph_view(graph@),
            ds == all_places(g),
            distinct_nodes(g),
            ids_of(keys@) == nodes_of(g),
            node < n,
            deps == graph@[node as int].1,
            nd == deps@.len(),
            dn == ds[node as int],
            dn.len() == nd,
            search_state(ds, visited@, path@, finished@, back_edges@),
            visited@[node as int],
            path@[node as int],
            path@ == p0.update(node as int, true),
            p0.len() == n,
            num_settled(visited@) > num_settled(v0),
            num_settled(v0) < n,
            unvisited == n - num_settled(v0),
            forall|v: int| 0 <= v < n && v0[v] ==> visited@[v],
            finished@.take(f0.len() as int) == f0,
            f0.len() <= finished@.len(),
            back_edges@.take(r0.len() as int) == r0,
            r0.len() <= back_edges@.len(),
            forall|u: int| 0 <= u < t && dn[u] >= 0 ==> recorded(back_edges@, node as int, dn[u]) || finished@.contains(dn[u]),
            cuts_on_cycles(g, back_edges@),
            forall|v: int| 0 <= v < n && #[trigger] p0[v] ==> reaches(g, nodes_of(g)[v], nodes_of(g)[node as int]),
    {
        let ghost d = dn[t as int];
        proof {
            assert(d == key_place(nodes_of(g), deps@[t as int]@));
        }
        match key_index(keys, &deps[t]) {
            None => {
                proof {
                    assert(!nodes_of(g).contains(deps@[t as int]@));
                }
            },
            Some(di) => {
                proof {
                    assert(ids_of(keys@)[di as int] == deps@[t as int]@);
                    assert(forall|i: int, j: int| 0 <= i < j < nodes_of(g).len() ==> nodes_of(g)[i] != nodes_of(g)[j]);
                    lemma_key_place(nodes_of(g), di as int);
                    assert(d == di);
                    assert(g[node as int].1[t as int] == deps@[t as int]@);
                    assert(g[node as int].1.contains(nodes_of(g)[di as int]));
                    assert(g[node as int].0 == nodes_of(g)[node as int]);
                    assert(depends_on(g, nodes_of(g)[node as int], nodes_of(g)[di as int]));
                }
                if path[di] {
                    let ghost before = back_edges@;
                    back_edges.push((node, di));
                    proof {
                        assert(back_edges@[before.len() as int] == (node, di));
                        assert(recorded(back_edges@, node as int, di as int));
                        if di == node {
                            lemma_reaches_self(g, nodes_of(g)[node as int]);
                        } else {
                            assert(path@[di as int]);
                            assert((di as int) < n);
                            assert(p0.update(node as int, true)[di as int] == p0[di as int]);
                            assert(p0[di as int]);
                        }
                        assert forall|k: int| 0 <= k < back_edges@.len() implies reaches(
                            g,
                            nodes_of(g)[(#[trigger] back_edges@[k]).1 as int],
                            nodes_of(g)[back_edges@[k].0 as int],
                        ) by {
                            if k < before.len() {
                                assert(back_edges@[k] == before[k]);
                            }
                        }
                        assert forall|a: int, b: int| recorded(before, a, b) implies #[trigger] recorded(back_edges@, a, b) by {
                            let k = choose|k: int| 0 <= k < before.len() && (#[trigger] before[k]).0 as int == a && before[k].1 as int == b;
                            assert(back_edges@[k] == before[k]);
                        }
                        assert(back_edges@.take(r0.len() as int) =~= before.take(r0.len() as int));
                        assert forall|p: int, q: int|
                            0 <= p < finished@.len() && 0 <= q < ds[finished@[p]].len() && #[trigger] ds[#[trigger] finished@[p]][q] >= 0 implies recorded(
                                back_edges@,
                                finished@[p],
                                ds[finished@[p]][q],
                            ) || exists|z: int| 0 <= z < p && finished@[z] == ds[finished@[p]][q] by {
                            if recorded(before, finished@[p], ds[finished@[p]][q]) {
                                let k = choose|k: int| 0 <= k < before.len() && before[k].0 as int == finished@[p] && before[k].1 as int == ds[finished@[p]][q];
                                assert(back_edges@[k] == before[k]);
                            }
                        }
                        assert forall|u: int| 0 <= u < t + 1 && dn[u] >= 0 implies recorded(back_edges@, node as int, dn[u]) || finished@.contains(dn[u]) by {
                            if u < t && recorded(before, node as int, dn[u]) {
                                let k = choose|k: int| 0 <= k < before.len() && before[k].0 as int == node as int && before[k].1 as int == dn[u];
                                assert(back_edges@[k] == before[k]);
                            }
                        }
                    }
                } else if !visited[di] {
                    let ghost fb = finished@;
                    let ghost rb = back_edges@;
                    let ghost vb = visited@;
                    proof {
                        lemma_num_settled_le(visited@);
                        assert(num_settled(visited@) <= graph@.len());
                        assert(num_settled(v0) < num_settled(visited@));
                        assert forall|v: int| 0 <= v < n && #[trigger] path@[v] implies reaches(
                            g,
                            nodes_of(g)[v],
                            nodes_of(g)[di as int],
                        ) by {
                            if v == node {
                                lemma_reaches_self(g, nodes_of(g)[node as int]);
                            } else {
                                assert(p0.update(node as int, true)[v] == p0[v]);
                                assert(p0[v]);
                            }
                            lemma_reaches_step(g, nodes_of(g)[v], nodes_of(g)[node as int], nodes_of(g)[di as int]);
                        }
                    }
                    find_cycles_from(graph, keys, di, visited, path, back_edges, finished, Ghost(graph@.len() - num_settled(visited@)));
                    proof {
                        assert(finished@.contains(di as int));
                        assert(finished@.take(f0.len() as int) =~= fb.take(f0.len() as int)) by {
                            assert forall|z: int| 0 <= z < f0.len() implies finished@[z] == fb[z] by {
                                assert(finished@.take(fb.len() as int)[z] == fb[z]);
                            }
                        }
                        assert(back_edges@.take(r0.len() as int) =~= rb.take(r0.len() as int)) by {
                            assert forall|z: int| 0 <= z < r0.len() implies back_edges@[z] == rb[z] by {
                                assert(back_edges@.take(rb.len() as int)[z] == rb[z]);
                            }
                        }
                        assert forall|u: int| 0 <= u < t + 1 && dn[u] >= 0 implies recorded(back_edges@, node as int, dn[u]) || finished@.contains(dn[u]) by {
                            if u < t {
                                if recorded(rb, node as int, dn[u]) {
                                    let k = choose|k: int| 0 <= k < rb.len() && rb[k].0 as int == node as int && rb[k].1 as int == dn[u];
                                    assert(back_edges@.take(rb.len() as int)[k] == rb[k]);
                                    assert(back_edges@[k] == rb[k]);
                                } else {
                                    let z = choose|z: int| 0 <= z < fb.len() && fb[z] == dn[u];
                                    assert(finished@.take(fb.len() as int)[z] == fb[z]);
                                    assert(finished@[z] == fb[z]);
                                }
                            }
                        }
                        assert forall|v: int| 0 <= v < n && v0[v] implies visited@[v] by {
                            assert(vb[v]);
                        }
                        lemma_num_settled_grow(vb, visited@);
                    }
                } else {
                    proof {
                        assert(finished@.contains(di as int));
                    }
                }
            },
        }
    }
    let ghost fe = finished@;
    path.set(node, false);
    proof {
        assert(!fe.contains(node as int));
        assert(path@ =~= p0) by {
            assert(!p0[node as int]) by {
                assert(!v0[node as int]);
            }
        }
    }
    *finished = Ghost(fe.push(node as int));
    proof {
        let fin = finished@;
        assert(fin[fe.len() as int] == node as int);
        assert forall|v: int| 0 <= v < n implies (visited@[v] <==> (path@[v] || fin.contains(v))) by {
            if fe.contains(v) {
                let z = choose|z: int| 0 <= z < fe.len() && fe[z] == v;
                assert(fin[z] == v);
            }
            if fin.contains(v) && v != node {
                let z = choose|z: int| 0 <= z < fin.len() && fin[z] == v;
                assert(fe[z] == v);
            }
        }
        assert forall|v: int| 0 <= v < n && #[trigger] path@[v] implies !fin.contains(v) by {
            if fin.contains(v) {
                let z = choose|z: int| 0 <= z < fin.len() && fin[z] == v;
                if z < fe.len() {
                    assert(fe[z] == v);
                }
            }
        }
        assert forall|p: int, q: int|
            0 <= p < fin.len() && 0 <= q < ds[fin[p]].len() && #[trigger] ds[#[trigger] fin[p]][q] >= 0 implies recorded(
                back_edges@,
                fin[p],
                ds[fin[p]][q],
            ) || exists|z: int| 0 <= z < p && fin[z] == ds[fin[p]][q] by {
            if p < fe.len() {
                assert(fin[p] == fe[p]);
                if !recorded(back_edges@, fin[p], ds[fin[p]][q]) {
                    let z = choose|z: int| 0 <= z < p && fe[z] == ds[fe[p]][q];
                    assert(fin[z] == fe[z]);
                }
            } else {
                assert(fin[p] == node as int);
                if !recorded(back_edges@, node as int, dn[q]) {
                    assert(fe.contains(dn[q]));
                    let z = choose|z: int| 0 <= z < fe.len() && fe[z] == dn[q];
                    assert(fin[z] == fe[z]);
                }
            }
        }
        assert forall|a: int, b: int| 0 <= a < b < fin.len() implies fin[a] != fin[b] by {
            if b == fe.len() {
                assert(fin[a] == fe[a]);
            } else {
                assert(fin[a] == fe[a] && fin[b] == fe[b]);
            }
        }
        assert(fin.take(f0.len() as int) =~= fe.take(f0.len() as int));
    }
}

/// Setting more entries to true settles no fewer.
proof fn lemma_num_settled_grow(a: Seq<bool>, b: Seq<bool>)
    requires
        a.len() == b.len(),
        forall|i: int| 0 <= i < a.len() && a[i] ==> b[i],
    ensures
        num_settled(a) <= num_settled(b),
    decreases a.len(),
{
    if a.len() > 0 {
        lemma_num_settled_grow(a.drop_last(), b.drop_last());
    }
}

/// `s` without the ids in `gone`.
pub open spec fn dropping(s: Seq<Seq<char>>, gone: Set<Seq<char>>) -> Seq<Seq<char>>
    decreases s.len(),
{
    if s.len() == 0 {
        s
    } else {
        let rest = dropping(s.drop_last(), gone);
        if gone.contains(s.last()) {
            rest
        } else {
            rest.push(s.last())
        }
    }
}

/// What `dropping` keeps: entries of `s` that are not gone.
proof fn lemma_dropping_contains(s: Seq<Seq<char>>, gone: Set<Seq<char>>)
    ensures
        forall|x: Seq<char>| #[trigger] dropping(s, gone).contains(x) <==> s.contains(x) && !gone.contains(x),
    decreases s.len(),
{
    if s.len() > 0 {
        let s0 = s.drop_last();
        lemma_dropping_contains(s0, gone);
        let r = dropping(s0, gone);
        let x = s.last();
        assert forall|y: Seq<char>| #[trigger] s.contains(y) <==> s0.contains(y) || y == x by {
            if s.contains(y) {
                let k = choose|k: int| 0 <= k < s.len() && s[k] == y;
                if k < s.len() - 1 {
                    assert(s0[k] == y);
                }
            }
            if s0.contains(y) {
                let k = choose|k: int| 0 <= k < s0.len() && s0[k] == y;
                assert(s[k] == y);
            }
            if y == x {
                assert(s[s.len() - 1] == y);
            }
        }
        assert forall|y: Seq<char>| #[trigger] r.push(x).contains(y) <==> r.contains(y) || y == x by {
            if r.push(x).contains(y) {
                let k = choose|k: int| 0 <= k < r.push(x).len() && r.push(x)[k] == y;
                if k < r.len() {
                    assert(r[k] == y);
                }
            }
            if r.contains(y) {
                let k = choose|k: int| 0 <= k < r.len() && r[k] == y;
                assert(r.push(x)[k] == y);
            }
            assert(r.push(x)[r.len() as int] == x);
        }
    }
}

/// The entity ids an edge was recorded to from the entity at place `u`.
pub open spec fn cut_from(g: Seq<(Seq<char>, Seq<Seq<char>>)>, rem: Seq<(usize, usize)>, u: int) -> Set<Seq<char>> {
    Set::new(|x: Seq<char>| nodes_of(g).contains(x) && recorded(rem, u, key_place(nodes_of(g), x)))
}

/// Whether every dependency of every entity of `g` is itself an entity of
/// `g`.
pub open spec fn dependencies_known(g: Seq<(Seq<char>, Seq<Seq<char>>)>) -> bool {
    forall|k: int, d: int| 0 <= k < g.len() && 0 <= d < g[k].1.len() ==> nodes_of(g).contains(#[trigger] g[k].1[d])
}

/// Whether `h` has the entities of `g`, each depending on some of its
/// dependencies in `g`: each entity drops every occurrence of some of the
/// entities it depends on, and keeps the rest in order; and it drops a
/// dependency only when the dependency leads back to it, so that the edge
/// lies on a cycle.
pub open spec fn pruned(g: Seq<(Seq<char>, Seq<Seq<char>>)>, h: Seq<(Seq<char>, Seq<Seq<char>>)>) -> bool {
    &&& nodes_of(h) == nodes_of(g)
    &&& h.len() == g.len()
    &&& forall|u: int| 0 <= u < g.len() ==> #[trigger] drops_some(g[u].1, h[u].1, nodes_of(g))
    &&& forall|u: int, x: Seq<char>|
        #![trigger g[u].1.contains(x), h[u].1.contains(x)]
        0 <= u < g.len() && g[u].1.contains(x) && !h[u].1.contains(x) ==> reaches(g, x, g[u].0)
}

/// Whether `t` is `s` without every occurrence of some of the ids in
/// `ids`.
pub open spec fn drops_some(s: Seq<Seq<char>>, t: Seq<Seq<char>>, ids: Seq<Seq<char>>) -> bool {
    exists|gone: Set<Seq<char>>| t == #[trigger] dropping(s, gone) && gone.subset_of(ids.to_set())
}

/// Whether edge (`u`, `d`) is in `back_edges`.
fn has_edge(back_edges: &Vec<(usize, usize)>, u: usize, d: usize) -> (r: bool)
    ensures
        r == recorded(back_edges@, u as int, d as int),
{
    let mut k: usize = 0;
    while k < back_edges.len()
        invariant
            k <= back_edges@.len(),
            forall|j: int| 0 <= j < k ==> !((#[trigger] back_edges@[j]).0 == u && back_edges@[j].1 == d),
        decreases back_edges@.len() - k,
    {
        if back_edges[k].0 == u && back_edges[k].1 == d {
            return true;
        }
        k += 1;
    }
    false
}

/// Breaks the cycles of `graph`: a depth-first search from each entity in
/// turn records each edge that leads back to an entity on the current
/// path, and each such dependency is then dropped. When every dependency
/// names an entity of the graph, what is left has a temporal order.
pub fn break_cycles(graph: &mut Vec<(EntityId, Vec<EntityId>)>)
    requires
        distinct_nodes(graph_view(old(graph)@)),
    ensures
        pruned(graph_view(old(graph)@), graph_view(final(graph)@)),
        dependencies_known(graph_view(old(graph)@)) ==> has_topological_order(graph_view(final(graph)@)),
{
    let ghost g = graph_view(graph@);
    let ghost ds = all_places(g);
    let ghost keys_v = nodes_of(g);
    let n = graph.len();
    let mut keys: Vec<EntityId> = Vec::new();
    for i in 0..n
        invariant
            n == graph@.len(),
            g == graph_view(graph@),
            keys_v == nodes_of(g),
            ids_of(keys@) == keys_v.take(i as int),
    {
        let ghost before = keys@;
        keys.push(graph[i].0.clone());
        assert(keys_v[i as int] == graph@[i as int].0@);
        assert(ids_of(keys@) =~= ids_of(before).push(graph@[i as int].0@));
        assert(ids_of(keys@) =~= keys_v.take(i + 1));
    }
    assert(keys_v.take(n as int) =~= keys_v);
    let mut visited: Vec<bool> = Vec::new();
    let mut path: Vec<bool> = Vec::new();
    for i in 0..n
        invariant
            visited@.len() == i,
            path@.len() == i,
            forall|q: int| 0 <= q < i ==> !visited@[q] && !path@[q],
    {
        visited.push(false);
        path.push(false);
    }
    let mut back_edges: Vec<(usize, usize)> = Vec::new();
    let mut finished: Ghost<Seq<int>> = Ghost(Seq::empty());
    let g_ref: &Vec<(EntityId, Vec<EntityId>)> = graph;
    for v in 0..n
        invariant
            n == g_ref@.len(),
            g == graph_view(g_ref@),
            ds == all_places(g),
            keys_v == nodes_of(g),
            distinct_nodes(g),
            ids_of(keys@) == keys_v,
            search_state(ds, visited@, path@, finished@, back_edges@),
            cuts_on_cycles(g, back_edges@),
            forall|q: int| 0 <= q < n ==> !path@[q],
            forall|q: int| 0 <= q < v ==> visited@[q],
    {
        if !visited[v] {
            let ghost vb = visited@;
            proof {
                lemma_num_settled_le(visited@);
            }
            let ghost budget = n - num_settled(visited@);
            find_cycles_from(g_ref, &keys, v, &mut visited, &mut path, &mut back_edges, &mut finished, Ghost(budget));
            proof {
                assert forall|q: int| 0 <= q < v + 1 implies visited@[q] by {
                    if q < v {
                        assert(vb[q]);
                    }
                }
            }
        }
    }
    let ghost fin = finished@;
    let ghost rem = back_edges@;
    let mut result: Vec<(EntityId, Vec<EntityId>)> = Vec::new();
    for u in 0..n
        invariant
            n == g_ref@.len(),
            g == graph_view(g_ref@),
            ds == all_places(g),
            keys_v == nodes_of(g),
            distinct_nodes(g),
            ids_of(keys@) == keys_v,
            rem == back_edges@,
            cuts_on_cycles(g, rem),
            result@.len() == u,
            forall|q: int| 0 <= q < u ==> (#[trigger] result@[q]).0@ == keys_v[q] && ids_of(result@[q].1@) == dropping(g[q].1, cut_from(g, rem, q)),
    {
        let deps = &g_ref[u].1;
        let nd = deps.len();
        let ghost gone = cut_from(g, rem, u as int);
        let mut kept: Vec<EntityId> = Vec::new();
        assert(g[u as int].1.take(0) =~= Seq::<Seq<char>>::empty());
        for t in 0..nd
            invariant
                n == g_ref@.len(),
                g == graph_view(g_ref@),
                keys_v == nodes_of(g),
                distinct_nodes(g),
                ids_of(keys@) == keys_v,
                rem == back_edges@,
                u < n,
                deps == g_ref@[u as int].1,
                nd == deps@.len(),
                gone == cut_from(g, rem, u as int),
                g[u as int].1 == ids_of(deps@),
                ids_of(kept@) == dropping(g[u as int].1.take(t as int), gone),
        {
            let x = &deps[t];
            proof {
                let s1 = g[u as int].1.take(t + 1);
                assert(s1.drop_last() =~= g[u as int].1.take(t as int));
                assert(s1.last() == x@);
                assert(forall|i: int, j: int| 0 <= i < j < keys_v.len() ==> keys_v[i] != keys_v[j]);
            }
            let cut = match key_index(&keys, x) {
                Some(di) => {
                    proof {
                        assert(ids_of(keys@)[di as int] == x@);
                        assert(keys_v.contains(x@));
                        lemma_key_place(keys_v, di as int);
                    }
                    has_edge(&back_edges, u, di)
                },
                None => false,
            };
            assert(cut == gone.contains(x@));
            if !cut {
                let ghost before = kept@;
                kept.push(x.clone());
                assert(ids_of(kept@) =~= ids_of(before).push(x@));
            }
        }
        assert(g[u as int].1.take(nd as int) =~= g[u as int].1);
        let ghost rb = result@;
        result.push((g_ref[u].0.clone(), kept));
        proof {
            assert(keys_v[u as int] == g_ref@[u as int].0@);
            assert forall|q: int| 0 <= q < u + 1 implies (#[trigger] result@[q]).0@ == keys_v[q] && ids_of(result@[q].1@) == dropping(
                g[q].1,
                cut_from(g, rem, q),
            ) by {
                if q < u {
                    assert(result@[q] == rb[q]);
                }
            }
        }
    }
    proof {
        let h = graph_view(result@);
        assert(nodes_of(h) =~= nodes_of(g)) by {
            assert forall|q: int| 0 <= q < n implies nodes_of(h)[q] == nodes_of(g)[q] by {
                assert(result@[q].0@ == keys_v[q]);
            }
        }
        assert forall|u: int| 0 <= u < g.len() implies #[trigger] drops_some(g[u].1, h[u].1, nodes_of(g)) by {
            let gone = cut_from(g, rem, u);
            assert(h[u].1 == dropping(g[u].1, gone));
            assert(gone.subset_of(nodes_of(g).to_set()));
        }
        assert forall|u: int, x: Seq<char>|
            0 <= u < g.len() && g[u].1.contains(x) && !h[u].1.contains(x) implies reaches(g, x, g[u].0) by {
            let gone = cut_from(g, rem, u);
            assert(h[u].1 == dropping(g[u].1, gone));
            lemma_dropping_contains(g[u].1, gone);
            assert(gone.contains(x));
            let keys = nodes_of(g);
            let k = choose|k: int| 0 <= k < rem.len() && (#[trigger] rem[k]).0 as int == u && rem[k].1 as int == key_place(keys, x);
            assert(keys[key_place(keys, x)] == x);
            assert(keys[u] == g[u].0);
        }
        if dependencies_known(g) {
            lemma_finished_order(g, h, visited@, path@, fin, rem);
        }
    }
    *graph = result;
    assert(pruned(g, graph_view(graph@)));
}

/// After the search has visited every entity, the order in which they
/// finished is a temporal order of what is left once the recorded edges
/// are dropped.
proof fn lemma_finished_order(
    g: Seq<(Seq<char>, Seq<Seq<char>>)>,
    h: Seq<(Seq<char>, Seq<Seq<char>>)>,
    visited: Seq<bool>,
    path: Seq<bool>,
    fin: Seq<int>,
    rem: Seq<(usize, usize)>,
)
    requires
        distinct_nodes(g),
        dependencies_known(g),
        search_state(all_places(g), visited, path, fin, rem),
        forall|q: int| 0 <= q < g.len() ==> visited[q] && !path[q],
        h.len() == g.len(),
        nodes_of(h) == nodes_of(g),
        forall|u: int| 0 <= u < g.len() ==> #[trigger] h[u].1 == dropping(g[u].1, cut_from(g, rem, u)),
    ensures
        has_topological_order(h),
{
    let n = g.len();
    let ds = all_places(g);
    let keys = nodes_of(g);
    assert(forall|i: int, j: int| 0 <= i < j < keys.len() ==> keys[i] != keys[j]);
    // Every entity finished, each once: the finishing order is a permutation.
    assert(fin.no_duplicates());
    fin.unique_seq_to_set();
    assert(fin.to_set() =~= vstd::set_lib::set_int_range(0, n as int)) by {
        assert forall|v: int| fin.to_set().contains(v) <==> 0 <= v < n by {
            if 0 <= v < n {
                assert(visited[v] && !path[v]);
                assert(fin.contains(v));
            }
            if fin.to_set().contains(v) {
                let p = choose|p: int| 0 <= p < fin.len() && fin[p] == v;
                assert(0 <= fin[p] < n);
            }
        }
    }
    vstd::set_lib::lemma_int_range(0, n as int);
    let o = fin.map_values(|v: int| keys[v]);
    assert forall|i: int, j: int| 0 <= i < j < o.len() implies o[i] != o[j] by {
        assert(fin[i] != fin[j]);
        assert(0 <= fin[i] < n && 0 <= fin[j] < n);
        if fin[i] < fin[j] {
            assert(keys[fin[i]] != keys[fin[j]]);
        } else {
            assert(keys[fin[j]] != keys[fin[i]]);
        }
    }
    assert forall|i: int| 0 <= i < o.len() implies nodes_of(h).contains(#[trigger] o[i]) by {
        assert(0 <= fin[i] < n);
        assert(nodes_of(h)[fin[i]] == keys[fin[i]]);
    }
    assert forall|k: int, d: int| 0 <= k < h.len() && 0 <= d < h[k].1.len() implies #[trigger] comes_before(o, h[k].1[d], h[k].0) by {
        let x = h[k].1[d];
        let gone = cut_from(g, rem, k);
        lemma_dropping_contains(g[k].1, gone);
        assert(h[k].1.contains(x));
        assert(g[k].1.contains(x) && !gone.contains(x));
        let t = choose|t: int| 0 <= t < g[k].1.len() && g[k].1[t] == x;
        assert(keys.contains(g[k].1[t]));
        let di = choose|i: int| 0 <= i < keys.len() && keys[i] == x;
        lemma_key_place(keys, di);
        assert(ds[k][t] == key_place(keys, x));
        assert(ds[k][t] == di);
        assert(!recorded(rem, k, di));
        assert(fin.to_set().contains(k));
        let p = choose|p: int| 0 <= p < fin.len() && fin[p] == k;
        assert(ds[fin[p]][t] >= 0);
        let q = choose|q: int| 0 <= q < p && fin[q] == ds[fin[p]][t];
        assert(o[q] == keys[di]);
        assert(o[p] == keys[k]);
        assert(h[k].0 == nodes_of(h)[k]);
        assert(0 <= q < p < o.len() && o[q] == x && o[p] == h[k].0);
    }
    assert(is_topological(h, o));
}

/// Dropping nothing keeps everything.
proof fn lemma_dropping_nothing(s: Seq<Seq<char>>)
    ensures
        dropping(s, Set::empty()) == s,
    decreases s.len(),
{
    if s.len() > 0 {
        lemma_dropping_nothing(s.drop_last());
        assert(s.drop_last().push(s.last()) =~= s);
    }
}

/// A graph with a temporal order depends only on its own entities.
proof fn lemma_ordered_known(g: Seq<(Seq<char>, Seq<Seq<char>>)>, o: Seq<Seq<char>>)
    requires
        is_topological(g, o),
    ensures
        dependencies_known(g),
{
    assert forall|k: int, d: int| 0 <= k < g.len() && 0 <= d < g[k].1.len() implies nodes_of(g).contains(#[trigger] g[k].1[d]) by {
        assert(comes_before(o, g[k].1[d], g[k].0));
        let (i, j) = choose|i: int, j: int| #![trigger o[i], o[j]] 0 <= i < j < o.len() && o[i] == g[k].1[d] && o[j] == g[k].0;
        assert(nodes_of(g).contains(o[i]));
    }
}

/// Pruning keeps a dependency on an entity the graph does not have.
proof fn lemma_pruned_unknown(g: Seq<(Seq<char>, Seq<Seq<char>>)>, h: Seq<(Seq<char>, Seq<Seq<char>>)>)
    requires
        pruned(g, h),
        !dependencies_known(g),
    ensures
        !dependencies_known(h),
{
    let (k, d) = choose|k: int, d: int| 0 <= k < g.len() && 0 <= d < g[k].1.len() && !nodes_of(g).contains(#[trigger] g[k].1[d]);
    let x = g[k].1[d];
    assert(drops_some(g[k].1, h[k].1, nodes_of(g)));
    let gone = choose|gone: Set<Seq<char>>| h[k].1 == #[trigger] dropping(g[k].1, gone) && gone.subset_of(nodes_of(g).to_set());
    lemma_dropping_contains(g[k].1, gone);
    assert(g[k].1.contains(x));
    assert(!gone.contains(x)) by {
        if gone.contains(x) {
            assert(nodes_of(g).to_set().contains(x));
        }
    }
    assert(h[k].1.contains(x));
    let e = choose|e: int| 0 <= e < h[k].1.len() && h[k].1[e] == x;
    assert(!nodes_of(h).contains(h[k].1[e]));
}

/// A copy of a dependency graph.
fn copy_graph(graph: &Vec<(EntityId, Vec<EntityId>)>) -> (r: Vec<(EntityId, Vec<EntityId>)>)
    ensures
        graph_view(r@) == graph_view(graph@),
{
    let mut r: Vec<(EntityId, Vec<EntityId>)> = Vec::new();
    for i in 0..graph.len()
        invariant
            r@.len() == i,
            forall|q: int| 0 <= q < i ==> graph_view(r@)[q] == graph_view(graph@)[q],
    {
        let deps = &graph[i].1;
        let mut c: Vec<EntityId> = Vec::new();
        for t in 0..deps.len()
            invariant
                ids_of(c@) == ids_of(deps@).take(t as int),
        {
            let ghost cb = c@;
            c.push(deps[t].clone());
            assert(ids_of(c@) =~= ids_of(cb).push(deps@[t as int]@));
            assert(ids_of(c@) =~= ids_of(deps@).take(t + 1));
        }
        assert(ids_of(deps@).take(deps@.len() as int) =~= ids_of(deps@));
        let ghost before = r@;
        r.push((graph[i].0.clone(), c));
        proof {
            assert forall|q: int| 0 <= q < i + 1 implies graph_view(r@)[q] == graph_view(graph@)[q] by {
                if q < i {
                    assert(r@[q] == before[q]);
                    assert(graph_view(before)[q] == graph_view(graph@)[q]);
                }
            }
        }
    }
    assert(graph_view(r@) =~= graph_view(graph@));
    r
}

/// Puts the entities of `graph` in temporal order. When there is none,
/// circular dependencies are first broken (see `break_cycles`), so this
/// fails only when a dependency names an entity the graph does not have.
pub fn topological_sort(graph: &Vec<(EntityId, Vec<EntityId>)>) -> (r: Result<Vec<EntityId>, LayoutError>)
    requires
        distinct_nodes(graph_view(graph@)),
    ensures
        r is Ok <==> dependencies_known(graph_view(graph@)),
        has_topological_order(graph_view(graph@)) ==> (r matches Ok(order) && is_topological(graph_view(graph@), ids_of(order@))),
        r matches Ok(order) ==> exists|h: Seq<(Seq<char>, Seq<Seq<char>>)>| #[trigger] pruned(graph_view(graph@), h) && is_topological(h, ids_of(order@)),
        r matches Err(e) ==> e is CircularDependency,
{
    let ghost g = graph_view(graph@);
    let result = topological_sort_impl(graph);
    match result {
        Ok(order) => {
            proof {
                lemma_ordered_known(g, ids_of(order@));
                assert forall|u: int| 0 <= u < g.len() implies #[trigger] drops_some(g[u].1, g[u].1, nodes_of(g)) by {
                    lemma_dropping_nothing(g[u].1);
                    assert(g[u].1 == dropping(g[u].1, Set::<Seq<char>>::empty()));
                }
                assert(pruned(g, g));
            }
            Ok(order)
        },
        Err(_) => {
            let mut broken = copy_graph(graph);
            break_cycles(&mut broken);
            let ghost h = graph_view(broken@);
            proof {
                assert(nodes_of(h) == nodes_of(g));
                assert(distinct_nodes(h)) by {
                    assert forall|i: int, j: int| 0 <= i < j < h.len() implies h[i].0 != h[j].0 by {
                        assert(nodes_of(h)[i] == nodes_of(g)[i]);
                        assert(nodes_of(h)[j] == nodes_of(g)[j]);
                    }
                }
                if !dependencies_known(g) {
                    lemma_pruned_unknown(g, h);
                    if has_topological_order(h) {
                        let o = choose|o: Seq<Seq<char>>| is_topological(h, o);
                        lemma_ordered_known(h, o);
                    }
                }
            }
            topological_sort_impl(&broken)
        },
    }
}

} // verus!
