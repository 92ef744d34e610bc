//! Orthogonal routing: lead lines from the entities, a routing graph whose
//! nodes are the points where lead lines end or cross and whose edges join
//! neighbouring nodes along a lead line, and the cheapest path through it.

use super::graph::{on_segment, symmetric, with_edge, NodeId, RoutingGraph};
use super::collision::expandable;
use super::lead_lines::{all_lead_lines, lead_room, lead_views, EntityId, LeadLine, LeadLineConfig, LeadLineGenerator, RoutingEntity};
use crate::infrastructure::text::{decimal, push_decimal};
use super::pathfinding::{cost, known_positions, lemma_bounded_costs_fit, lemma_cost_nonneg, walk_between, walk_step, weights_bounded, DijkstraPathfinder, GraphPath};
use super::{manhattan, Point, Rectangle, RoutePath, RoutingConfig};
use vstd::prelude::*;

verus! {

/// The start and end of each lead line, in order.
pub open spec fn line_points(lines: Seq<LeadLine>) -> Seq<Point>
    decreases lines.len(),
{
    if lines.len() == 0 {
        Seq::empty()
    } else {
        line_points(lines.drop_last()) + seq![lines.last().start, lines.last().end]
    }
}

/// Every point that gets a node: each intersection, then the start and end
/// of each lead line.
pub open spec fn wanted_points(intersections: Seq<Point>, lines: Seq<LeadLine>) -> Seq<Point> {
    intersections + line_points(lines)
}

/// `s` without repeats, each point where it first appears.
pub open spec fn dedup(s: Seq<Point>) -> Seq<Point>
    decreases s.len(),
{
    if s.len() == 0 {
        s
    } else {
        let d = dedup(s.drop_last());
        if d.contains(s.last()) {
            d
        } else {
            d.push(s.last())
        }
    }
}

/// `ps` with each point of `qs` that it does not have yet appended, in
/// order.
pub open spec fn with_points(ps: Seq<Point>, qs: Seq<Point>) -> Seq<Point>
    decreases qs.len(),
{
    if qs.len() == 0 {
        ps
    } else {
        let r = with_points(ps, qs.drop_last());
        if r.contains(qs.last()) {
            r
        } else {
            r.push(qs.last())
        }
    }
}

/// The points of node entries.
pub open spec fn entry_points(m: Seq<(Point, NodeId)>) -> Seq<Point> {
    m.map_values(|e: (Point, NodeId)| e.0)
}

/// `adj` followed by `k` empty edge lists.
pub open spec fn padded(adj: Seq<Seq<(usize, u32)>>, k: nat) -> Seq<Seq<(usize, u32)>> {
    adj + Seq::new(k, |i: int| Seq::<(usize, u32)>::empty())
}

/// What `dedup` and `with_points` contain.
pub proof fn lemma_points_contain(ps: Seq<Point>, qs: Seq<Point>)
    ensures
        forall|p: Point| #[trigger] dedup(qs).contains(p) <==> qs.contains(p),
        forall|p: Point| #[trigger] with_points(ps, qs).contains(p) <==> ps.contains(p) || qs.contains(p),
        ps.len() <= with_points(ps, qs).len() <= ps.len() + qs.len(),
        with_points(ps, qs).take(ps.len() as int) == ps,
    decreases qs.len(),
{
    if qs.len() > 0 {
        let q0 = qs.drop_last();
        lemma_points_contain(ps, q0);
        assert forall|p: Point| #[trigger] qs.contains(p) <==> q0.contains(p) || p == qs.last() by {
            if qs.contains(p) {
                let k = choose|k: int| 0 <= k < qs.len() && qs[k] == p;
                if k < qs.len() - 1 {
                    assert(q0[k] == p);
                }
            }
            if q0.contains(p) {
                let k = choose|k: int| 0 <= k < q0.len() && q0[k] == p;
                assert(qs[k] == p);
            }
            if p == qs.last() {
                assert(qs[qs.len() - 1] == p);
            }
        }
        let r = with_points(ps, q0);
        let d = dedup(q0);
        let x = qs.last();
        assert forall|p: Point| #[trigger] d.push(x).contains(p) <==> d.contains(p) || p == x by {
            if d.push(x).contains(p) {
                let k = choose|k: int| 0 <= k < d.push(x).len() && d.push(x)[k] == p;
                if k < d.len() {
                    assert(d[k] == p);
                }
            }
            if d.contains(p) {
                let k = choose|k: int| 0 <= k < d.len() && d[k] == p;
                assert(d.push(x)[k] == p);
            }
            assert(d.push(x)[d.len() as int] == x);
        }
        assert forall|p: Point| #[trigger] r.push(x).contains(p) <==> r.contains(p) || p == x by {
            if r.push(x).contains(p) {
                let k = choose|k: int| 0 <= k < r.push(x).len() && r.push(x)[k] == p;
                if k < r.len() {
                    assert(r[k] == p);
                }
            }
            if r.contains(p) {
                let k = choose|k: int| 0 <= k < r.len() && r[k] == p;
                assert(r.push(x)[k] == p);
            }
            assert(r.push(x)[r.len() as int] == x);
        }
        if !r.contains(x) {
            assert(r.push(x).take(ps.len() as int) =~= r.take(ps.len() as int));
        }
    }
}

/// The points in `m` are the points of `dedup(q)`, and the entry of each
/// names its node in `positions`.
pub open spec fn entries_match(m: Seq<(Point, NodeId)>, q: Seq<Point>, positions: Seq<Point>) -> bool {
    &&& entry_points(m) == dedup(q)
    &&& forall|k: int| 0 <= k < m.len() ==> (#[trigger] m[k]).1@ < positions.len() && positions[m[k].1@ as int] == m[k].0
}

/// The node of the first entry of `m` for `p`, if any.
pub open spec fn lookup(m: Seq<(Point, NodeId)>, p: Point) -> Option<NodeId>
    decreases m.len(),
{
    if m.len() == 0 {
        None
    } else if m[0].0 == p {
        Some(m[0].1)
    } else {
        lookup(m.drop_first(), p)
    }
}

/// The node of the entry for `p` in `m`, if any.
fn find_entry(m: &Vec<(Point, NodeId)>, p: Point) -> (r: Option<NodeId>)
    ensures
        r == lookup(m@, p),
        match r {
            Some(id) => exists|k: int| 0 <= k < m@.len() && (#[trigger] m@[k]).0 == p && m@[k].1 == id,
            None => !entry_points(m@).contains(p),
        },
{
    let mut i: usize = 0;
    assert(m@.skip(0) =~= m@);
    while i < m.len()
        invariant
            i <= m@.len(),
            forall|k: int| 0 <= k < i ==> (#[trigger] m@[k]).0 != p,
            lookup(m@, p) == lookup(m@.skip(i as int), p),
        decreases m@.len() - i,
    {
        assert(m@.skip(i as int)[0] == m@[i as int]);
        if m[i].0 == p {
            return Some(m[i].1);
        }
        assert(m@.skip(i as int).drop_first() =~= m@.skip(i + 1));
        i += 1;
    }
    assert(m@.skip(i as int) =~= Seq::<(Point, NodeId)>::empty());
    proof {
        if entry_points(m@).contains(p) {
            let k = choose|k: int| 0 <= k < entry_points(m@).len() && entry_points(m@)[k] == p;
            assert(m@[k].0 == p);
        }
    }
    None
}

/// Gives `p` a node of `graph` (reusing a node at the same position) and
/// records it in `m` unless `m` has it already.
fn add_node_for(
    graph: &mut RoutingGraph,
    m: &mut Vec<(Point, NodeId)>,
    p: Point,
    Ghost(p0): Ghost<Seq<Point>>,
    Ghost(a0): Ghost<Seq<Seq<(usize, u32)>>>,
    Ghost(done): Ghost<Seq<Point>>,
)
    requires
        old(graph).wf(),
        entries_match(old(m)@, done, old(graph).positions()),
        old(graph).positions() == with_points(p0, done),
        old(graph).adjacency() == padded(a0, (old(graph).positions().len() - p0.len()) as nat),
        old(graph).positions().len() + 1 < usize::MAX,
    ensures
        final(graph).wf(),
        entries_match(final(m)@, done.push(p), final(graph).positions()),
        final(graph).positions() == with_points(p0, done.push(p)),
        final(graph).adjacency() == padded(a0, (final(graph).positions().len() - p0.len()) as nat),
{
    proof {
        lemma_points_contain(p0, done);
        lemma_points_contain(p0, done.push(p));
        assert(done.push(p).drop_last() =~= done);
    }
    match find_entry(m, p) {
        Some(_) => {
            proof {
                let k = choose|k: int| 0 <= k < m@.len() && (#[trigger] m@[k]).0 == p;
                assert(entry_points(m@)[k] == p);
                assert(dedup(done).contains(p));
            }
        },
        None => {
            assert(!done.contains(p));
            let ghost before = graph.positions();
            let ghost old_m = m@;
            let ghost k = (before.len() - p0.len()) as nat;
            let id = graph.add_node(p);
            m.push((p, id));
            proof {
                assert(entry_points(m@) =~= entry_points(old_m).push(p));
                if !before.contains(p) {
                    assert(padded(a0, k).push(Seq::empty()) =~= padded(a0, k + 1));
                    assert forall|j: int| 0 <= j < m@.len() implies (#[trigger] m@[j]).1@ < graph.positions().len()
                        && graph.positions()[m@[j].1@ as int] == m@[j].0 by {
                        if j < old_m.len() {
                            assert(old_m[j] == m@[j]);
                        }
                    }
                } else {
                    assert forall|j: int| 0 <= j < m@.len() implies (#[trigger] m@[j]).1@ < graph.positions().len()
                        && graph.positions()[m@[j].1@ as int] == m@[j].0 by {
                        if j < old_m.len() {
                            assert(old_m[j] == m@[j]);
                        }
                    }
                }
            }
        },
    }
}

/// Where `p` lies along `l`: its y on a vertical line, else its x.
pub open spec fn along(l: LeadLine, p: Point) -> u32 {
    if l.start.x == l.end.x {
        p.y
    } else {
        p.x
    }
}

/// Whether the entries of `s` lie along `l` in strictly increasing order.
pub open spec fn ascending(l: LeadLine, s: Seq<(Point, NodeId)>) -> bool {
    forall|i: int, j: int| 0 <= i < j < s.len() ==> along(l, #[trigger] s[i].0) < along(l, #[trigger] s[j].0)
}

/// Whether `s` lists, in order along `l`, exactly the entries of `m` whose
/// point lies on `l`.
pub open spec fn lists_on(l: LeadLine, m: Seq<(Point, NodeId)>, s: Seq<(Point, NodeId)>) -> bool {
    &&& ascending(l, s)
    &&& forall|e: (Point, NodeId)| #[trigger] s.contains(e) <==> (m.contains(e) && on_segment(e.0, l.start, l.end))
}

/// The entries of `m` on `l`, in order along it.
pub open spec fn ordered_on(l: LeadLine, m: Seq<(Point, NodeId)>) -> Seq<(Point, NodeId)> {
    choose|s: Seq<(Point, NodeId)>| lists_on(l, m, s)
}

/// Two points on one segment share their x (a vertical segment) or
/// their y (a horizontal one), so distinct ones lie at distinct places
/// along it.
proof fn lemma_on_segment_along(l: LeadLine, p: Point, q: Point)
    requires
        on_segment(p, l.start, l.end),
        on_segment(q, l.start, l.end),
    ensures
        p.x == q.x || p.y == q.y,
        p != q ==> along(l, p) != along(l, q),
        manhattan(p, q) <= u32::MAX,
{
}

/// Only one sequence lists given entries in strictly increasing order.
proof fn lemma_ascending_unique(l: LeadLine, a: Seq<(Point, NodeId)>, b: Seq<(Point, NodeId)>)
    requires
        ascending(l, a),
        ascending(l, b),
        forall|e: (Point, NodeId)| a.contains(e) <==> b.contains(e),
    ensures
        a == b,
    decreases a.len(),
{
    if a.len() == 0 {
        if b.len() > 0 {
            assert(b.contains(b[0]));
        }
        assert(a =~= b);
    } else {
        assert(a.contains(a[0]));
        let j = choose|j: int| 0 <= j < b.len() && b[j] == a[0];
        assert(b.contains(b[0]));
        let i = choose|i: int| 0 <= i < a.len() && a[i] == b[0];
        if i > 0 {
            assert(along(l, a[0].0) < along(l, a[i].0));
        }
        if j > 0 {
            assert(along(l, b[0].0) < along(l, b[j].0));
        }
        assert(a[0] == b[0]);
        let a1 = a.drop_first();
        let b1 = b.drop_first();
        assert forall|e: (Point, NodeId)| a1.contains(e) <==> b1.contains(e) by {
            if a1.contains(e) {
                let k = choose|k: int| 0 <= k < a1.len() && a1[k] == e;
                assert(a[k + 1] == e);
                assert(along(l, a[0].0) < along(l, a[k + 1].0));
                assert(b.contains(e));
                let q = choose|q: int| 0 <= q < b.len() && b[q] == e;
                assert(q != 0);
                assert(b1[q - 1] == e);
            }
            if b1.contains(e) {
                let k = choose|k: int| 0 <= k < b1.len() && b1[k] == e;
                assert(b[k + 1] == e);
                assert(along(l, b[0].0) < along(l, b[k + 1].0));
                assert(a.contains(e));
                let q = choose|q: int| 0 <= q < a.len() && a[q] == e;
                assert(q != 0);
                assert(a1[q - 1] == e);
            }
        }
        assert forall|x: int, y: int| 0 <= x < y < a1.len() implies along(l, #[trigger] a1[x].0) < along(l, #[trigger] a1[y].0) by {
            assert(a1[x] == a[x + 1] && a1[y] == a[y + 1]);
        }
        assert forall|x: int, y: int| 0 <= x < y < b1.len() implies along(l, #[trigger] b1[x].0) < along(l, #[trigger] b1[y].0) by {
            assert(b1[x] == b[x + 1] && b1[y] == b[y + 1]);
        }
        lemma_ascending_unique(l, a1, b1);
        assert(a =~= seq![a[0]] + a1);
        assert(b =~= seq![b[0]] + b1);
    }
}

/// The entries of `m` on `line`, in order along it.
fn nodes_on_line(line: &LeadLine, m: &Vec<(Point, NodeId)>) -> (r: Vec<(Point, NodeId)>)
    requires
        forall|i: int, j: int| 0 <= i < j < m@.len() ==> (#[trigger] m@[i]).0 != (#[trigger] m@[j]).0,
    ensures
        r@ == ordered_on(*line, m@),
        lists_on(*line, m@, r@),
{
    let ghost l = *line;
    let mut out: Vec<(Point, NodeId)> = Vec::new();
    let n = m.len();
    for i in 0..n
        invariant
            n == m@.len(),
            l == *line,
            forall|i: int, j: int| 0 <= i < j < m@.len() ==> (#[trigger] m@[i]).0 != (#[trigger] m@[j]).0,
            ascending(l, out@),
            forall|e: (Point, NodeId)| #[trigger] out@.contains(e) <==> (m@.take(i as int).contains(e) && on_segment(e.0, l.start, l.end)),
    {
        let e = m[i];
        proof {
            let t1 = m@.take(i + 1);
            let t0 = m@.take(i as int);
            assert forall|x: (Point, NodeId)| #[trigger] t1.contains(x) <==> (t0.contains(x) || x == e) by {
                if t1.contains(x) {
                    let k = choose|k: int| 0 <= k < t1.len() && t1[k] == x;
                    if k < i {
                        assert(t0[k] == x);
                    }
                }
                if t0.contains(x) {
                    let k = choose|k: int| 0 <= k < t0.len() && t0[k] == x;
                    assert(t1[k] == x);
                }
                if x == e {
                    assert(t1[i as int] == x);
                }
            }
        }
        if super::graph::point_on_line(e.0, line.start, line.end) {
            let key = if line.start.x == line.end.x { e.0.y } else { e.0.x };
            let mut pos: usize = 0;
            while pos < out.len()
                invariant
                    pos <= out@.len(),
                    forall|k: int| 0 <= k < pos ==> along(l, #[trigger] out@[k].0) < key,
                    key == along(l, e.0),
                    l == *line,
                ensures
                    pos <= out@.len(),
                    forall|k: int| 0 <= k < pos ==> along(l, #[trigger] out@[k].0) < key,
                    pos == out@.len() || along(l, out@[pos as int].0) >= key,
                decreases out@.len() - pos,
            {
                let here = if line.start.x == line.end.x { out[pos].0.y } else { out[pos].0.x };
                if here >= key {
                    break;
                }
                pos += 1;
            }
            proof {
                assert forall|k: int| 0 <= k < out@.len() implies (#[trigger] out@[k]).0 != e.0 by {
                    assert(out@.contains(out@[k]));
                    let t0 = m@.take(i as int);
                    let q = choose|q: int| 0 <= q < t0.len() && t0[q] == out@[k];
                    assert(m@[q] == out@[k]);
                }
                assert forall|k: int| pos <= k < out@.len() implies along(l, #[trigger] out@[k].0) > key by {
                    assert(out@.contains(out@[k]));
                    lemma_on_segment_along(l, out@[k].0, e.0);
                    if k > pos {
                        assert(along(l, out@[pos as int].0) < along(l, out@[k].0));
                    }
                    assert(out@.contains(out@[pos as int]));
                    lemma_on_segment_along(l, out@[pos as int].0, e.0);
                }
            }
            let ghost before = out@;
            out.insert(pos, e);
            proof {
                assert(out@ =~= before.insert(pos as int, e));
                assert forall|x: int, y: int| 0 <= x < y < out@.len() implies along(l, #[trigger] out@[x].0) < along(l, #[trigger] out@[y].0) by {
                    if y < pos {
                        assert(out@[x] == before[x] && out@[y] == before[y]);
                    } else if y == pos {
                        assert(out@[x] == before[x]);
                    } else if x < pos {
                        assert(out@[x] == before[x] && out@[y] == before[y - 1]);
                    } else if x == pos {
                        assert(out@[y] == before[y - 1]);
                    } else {
                        assert(out@[x] == before[x - 1] && out@[y] == before[y - 1]);
                    }
                }
                assert forall|x: (Point, NodeId)| #[trigger] out@.contains(x) <==> (before.contains(x) || x == e) by {
                    if out@.contains(x) {
                        let k = choose|k: int| 0 <= k < out@.len() && out@[k] == x;
                        if k < pos {
                            assert(before[k] == x);
                        } else if k > pos {
                            assert(before[k - 1] == x);
                        }
                    }
                    if before.contains(x) {
                        let k = choose|k: int| 0 <= k < before.len() && before[k] == x;
                        if k < pos {
                            assert(out@[k] == x);
                        } else {
                            assert(out@[k + 1] == x);
                        }
                    }
                    if x == e {
                        assert(out@[pos as int] == x);
                    }
                }
            }
        }
    }
    assert(m@.take(n as int) =~= m@);
    proof {
        assert(lists_on(l, m@, out@));
        let c = ordered_on(l, m@);
        lemma_ascending_unique(l, out@, c);
    }
    out
}

/// `adj` with an edge, and its reverse, between each pair of neighbours in
/// `s`, in order, weighted by the distance of their positions.
pub open spec fn chained(adj: Seq<Seq<(usize, u32)>>, positions: Seq<Point>, s: Seq<(Point, NodeId)>) -> Seq<Seq<(usize, u32)>>
    decreases s.len(),
{
    if s.len() < 2 {
        adj
    } else {
        let a = s[s.len() - 2].1@ as int;
        let b = s.last().1@ as int;
        with_edge(chained(adj, positions, s.drop_last()), a, b, manhattan(positions[a], positions[b]) as u32)
    }
}

/// `adj` with the edges along each of `lines` in turn, between the
/// neighbouring nodes of `m` on it.
pub open spec fn all_chained(
    adj: Seq<Seq<(usize, u32)>>,
    positions: Seq<Point>,
    lines: Seq<LeadLine>,
    m: Seq<(Point, NodeId)>,
) -> Seq<Seq<(usize, u32)>>
    decreases lines.len(),
{
    if lines.len() == 0 {
        adj
    } else {
        chained(all_chained(adj, positions, lines.drop_last(), m), positions, ordered_on(lines.last(), m))
    }
}

/// Whether every edge of `adj` between nodes with positions joins two
/// positions on one horizontal or vertical line, weighted by their
/// distance.
pub open spec fn orthogonal(adj: Seq<Seq<(usize, u32)>>, positions: Seq<Point>) -> bool {
    forall|i: int, k: int|
        0 <= i < adj.len() && 0 <= k < adj[i].len() && i < positions.len() && (#[trigger] adj[i][k]).0 < positions.len() ==> {
            &&& (positions[i].x == positions[adj[i][k].0 as int].x || positions[i].y == positions[adj[i][k].0 as int].y)
            &&& adj[i][k].1 == manhattan(positions[i], positions[adj[i][k].0 as int])
        }
}

/// Adding an edge, and its reverse, between two positions on one
/// horizontal or vertical line keeps every edge so.
proof fn lemma_with_edge_orthogonal(adj: Seq<Seq<(usize, u32)>>, positions: Seq<Point>, a: int, b: int, w: u32)
    requires
        orthogonal(adj, positions),
        adj.len() <= usize::MAX,
        0 <= a < adj.len(),
        0 <= b < adj.len(),
        a < positions.len(),
        b < positions.len(),
        positions[a].x == positions[b].x || positions[a].y == positions[b].y,
        w == manhattan(positions[a], positions[b]),
    ensures
        orthogonal(with_edge(adj, a, b, w), positions),
{
    let n = with_edge(adj, a, b, w);
    assert forall|i: int, k: int|
        0 <= i < n.len() && 0 <= k < n[i].len() && i < positions.len() && (#[trigger] n[i][k]).0 < positions.len() implies {
            &&& (positions[i].x == positions[n[i][k].0 as int].x || positions[i].y == positions[n[i][k].0 as int].y)
            &&& n[i][k].1 == manhattan(positions[i], positions[n[i][k].0 as int])
        } by {
        let once = adj.update(a, adj[a].push((b as usize, w)));
        if i != a && i != b {
            assert(n[i] == adj[i]);
        } else if k < adj[i].len() {
            assert(n[i][k] == adj[i][k]);
        } else if i == a && k == adj[a].len() {
            assert(n[i][k].0 == b);
        } else {
            assert(i == b);
            assert(n[i][k].0 == a);
        }
    }
}

/// Empty edge lists for new positions keep every edge on a line.
proof fn lemma_padded_orthogonal(adj: Seq<Seq<(usize, u32)>>, p0: Seq<Point>, positions: Seq<Point>, k: nat)
    requires
        orthogonal(adj, p0),
        symmetric(adj),
        adj.len() == p0.len(),
        positions.take(p0.len() as int) == p0,
        p0.len() <= positions.len(),
    ensures
        orthogonal(padded(adj, k), positions),
{
    let n = padded(adj, k);
    assert forall|i: int, j: int|
        0 <= i < n.len() && 0 <= j < n[i].len() && i < positions.len() && (#[trigger] n[i][j]).0 < positions.len() implies {
            &&& (positions[i].x == positions[n[i][j].0 as int].x || positions[i].y == positions[n[i][j].0 as int].y)
            &&& n[i][j].1 == manhattan(positions[i], positions[n[i][j].0 as int])
        } by {
        assert(i < adj.len());
        assert(n[i][j] == adj[i][j]);
        assert(positions[i] == p0[i]);
        let d = adj[i][j].0 as int;
        assert(d < adj.len());
        assert(positions[d] == p0[d]);
    }
}

/// `dedup` lists each point once.
pub proof fn lemma_dedup_distinct(s: Seq<Point>)
    ensures
        forall|i: int, j: int| 0 <= i < j < dedup(s).len() ==> dedup(s)[i] != dedup(s)[j],
    decreases s.len(),
{
    if s.len() > 0 {
        lemma_dedup_distinct(s.drop_last());
        let d = dedup(s.drop_last());
        let x = s.last();
        if !d.contains(x) {
            assert forall|i: int, j: int| 0 <= i < j < d.push(x).len() implies d.push(x)[i] != d.push(x)[j] by {
                if j == d.len() && d[i] == x {
                    assert(d.contains(x));
                }
            }
        }
    }
}

/// Debug information about the routing process.
#[derive(Debug, Clone)]
pub struct RoutingDebugInfo {
    /// All generated lead lines.
    pub lead_lines: Vec<LeadLine>,
    /// All intersection points found.
    pub intersections: Vec<Point>,
    /// All graph nodes (intersection points and lead line ends).
    pub graph_nodes: Vec<Point>,
    /// Number of edges in the routing graph.
    pub edge_count: usize,
    /// Number of nodes found for the source entity.
    pub source_node_count: usize,
    /// Number of nodes found for the target entity.
    pub target_node_count: usize,
}

/// The router that coordinates lead lines, the routing graph and the
/// search for a path.
pub struct OrthogonalRouter {
    config: RoutingConfig,
}

impl OrthogonalRouter {
    /// The router's configuration.
    pub closed spec fn configuration(&self) -> RoutingConfig {
        self.config
    }

    /// Creates a router with the given configuration.
    pub fn new(config: RoutingConfig) -> (r: Self)
        ensures
            r.configuration() == config,
    {
        OrthogonalRouter { config }
    }

    /// Builds the routing graph: a node for each intersection and each
    /// lead line end (reusing a node at the same position), and along each
    /// lead line an edge between each pair of neighbouring nodes on it.
    /// Returns each point with its node, in order of first appearance.
    pub fn build_graph(&self, graph: &mut RoutingGraph, lead_lines: &[LeadLine], intersections: &[Point]) -> (m: Vec<(Point, NodeId)>)
        requires
            old(graph).wf(),
            old(graph).positions().len() + intersections@.len() + 2 * lead_lines@.len() + 1 < usize::MAX,
        ensures
            final(graph).wf(),
            final(graph).positions() == with_points(old(graph).positions(), wanted_points(intersections@, lead_lines@)),
            entries_match(m@, wanted_points(intersections@, lead_lines@), final(graph).positions()),
            final(graph).adjacency() == all_chained(
                padded(old(graph).adjacency(), (final(graph).positions().len() - old(graph).positions().len()) as nat),
                final(graph).positions(),
                lead_lines@,
                m@,
            ),
            orthogonal(old(graph).adjacency(), old(graph).positions()) ==> orthogonal(final(graph).adjacency(), final(graph).positions()),
            RoutingGraph::listed_edges(final(graph).adjacency()) <= RoutingGraph::listed_edges(old(graph).adjacency()) + 2
                * lead_lines@.len() * m@.len(),
    {
        let ghost p0 = graph.positions();
        let ghost a0 = graph.adjacency();
        let ghost ints = intersections@;
        let ghost lines = lead_lines@;
        proof {
            graph.lemma_wf_facts();
            assert(padded(a0, 0) =~= a0);
            assert(ints.take(0) =~= Seq::<Point>::empty());
            assert(with_points(p0, ints.take(0)) == p0);
        }
        let mut m: Vec<(Point, NodeId)> = Vec::new();
        assert(entry_points(m@) =~= dedup(ints.take(0)));
        let ni = intersections.len();
        for i in 0..ni
            invariant
                ni == ints.len(),
                ints == intersections@,
                graph.wf(),
                p0.len() + ints.len() + 2 * lines.len() + 1 < usize::MAX,
                entries_match(m@, ints.take(i as int), graph.positions()),
                graph.positions() == with_points(p0, ints.take(i as int)),
                graph.adjacency() == padded(a0, (graph.positions().len() - p0.len()) as nat),
        {
            proof {
                lemma_points_contain(p0, ints.take(i as int));
                assert(ints.take(i as int).push(intersections@[i as int]) =~= ints.take(i + 1));
            }
            add_node_for(graph, &mut m, intersections[i], Ghost(p0), Ghost(a0), Ghost(ints.take(i as int)));
        }
        assert(ints.take(ni as int) =~= ints);
        assert(line_points(lines.take(0)) =~= Seq::<Point>::empty());
        assert(ints + line_points(lines.take(0)) =~= ints);
        let nl = lead_lines.len();
        for j in 0..nl
            invariant
                nl == lines.len(),
                lines == lead_lines@,
                graph.wf(),
                p0.len() + ints.len() + 2 * lines.len() + 1 < usize::MAX,
                entries_match(m@, ints + line_points(lines.take(j as int)), graph.positions()),
                graph.positions() == with_points(p0, ints + line_points(lines.take(j as int))),
                graph.adjacency() == padded(a0, (graph.positions().len() - p0.len()) as nat),
        {
            let ghost done = ints + line_points(lines.take(j as int));
            proof {
                assert(lines.take(j + 1).drop_last() =~= lines.take(j as int));
                assert(line_points(lines.take(j as int)).len() == 2 * j) by {
                    lemma_line_points_len(lines.take(j as int));
                }
                lemma_points_contain(p0, done);
            }
            add_node_for(graph, &mut m, lead_lines[j].start, Ghost(p0), Ghost(a0), Ghost(done));
            proof {
                lemma_points_contain(p0, done.push(lead_lines@[j as int].start));
            }
            add_node_for(graph, &mut m, lead_lines[j].end, Ghost(p0), Ghost(a0), Ghost(done.push(lead_lines@[j as int].start)));
            proof {
                assert(done.push(lead_lines@[j as int].start).push(lead_lines@[j as int].end) =~= ints + line_points(lines.take(j + 1)));
            }
        }
        assert(lines.take(nl as int) =~= lines);
        let ghost w = wanted_points(ints, lines);
        let ghost pos = graph.positions();
        let ghost start_adj = graph.adjacency();
        proof {
            lemma_dedup_distinct(w);
            lemma_points_contain(p0, w);
            lemma_line_points_len(lines);
            if orthogonal(a0, p0) {
                lemma_padded_orthogonal(a0, p0, pos, (pos.len() - p0.len()) as nat);
            }
            lemma_listed_padded(a0, (pos.len() - p0.len()) as nat);
            assert(all_chained(start_adj, pos, lines.take(0), m@) == start_adj);
        }
        assert forall|i: int, j: int| 0 <= i < j < m@.len() implies (#[trigger] m@[i]).0 != (#[trigger] m@[j]).0 by {
            assert(entry_points(m@)[i] == m@[i].0);
            assert(entry_points(m@)[j] == m@[j].0);
        }
        for j in 0..nl
            invariant
                nl == lines.len(),
                lines == lead_lines@,
                graph.wf(),
                graph.positions() == pos,
                entries_match(m@, w, pos),
                forall|i: int, j: int| 0 <= i < j < m@.len() ==> (#[trigger] m@[i]).0 != (#[trigger] m@[j]).0,
                graph.adjacency() == all_chained(start_adj, pos, lines.take(j as int), m@),
                orthogonal(a0, p0) ==> orthogonal(graph.adjacency(), pos),
                pos.len() < usize::MAX,
                RoutingGraph::listed_edges(start_adj) == RoutingGraph::listed_edges(a0),
                RoutingGraph::listed_edges(graph.adjacency()) <= RoutingGraph::listed_edges(a0) + 2 * j * m@.len(),
        {
            let on_line = nodes_on_line(&lead_lines[j], &m);
            let ghost base = graph.adjacency();
            let ghost l = lead_lines@[j as int];
            proof {
                assert(lines.take(j + 1).drop_last() =~= lines.take(j as int));
                assert(lines.take(j + 1).last() == l);
            }
            let k = on_line.len();
            proof {
                lemma_lists_on_len(l, m@, on_line@);
                assert forall|q: int| 0 <= q < on_line@.len() implies (#[trigger] on_line@[q]).1@ < base.len() by {
                    assert(on_line@.contains(on_line@[q]));
                    let t = choose|t: int| 0 <= t < m@.len() && m@[t] == on_line@[q];
                    graph.lemma_wf_facts();
                }
                lemma_listed_chained(base, pos, on_line@);
                assert(2 * j * m@.len() + 2 * m@.len() == 2 * (j + 1) * m@.len()) by (nonlinear_arith);
            }
            if k == 0 {
                assert(on_line@ =~= Seq::<(Point, NodeId)>::empty());
            } else {
            assert(chained(base, pos, on_line@.take(1)) == base);
            let mut i: usize = 0;
            while i + 1 < k
                invariant
                    k == on_line@.len(),
                    i < k,
                    pos.len() < usize::MAX,
                    lists_on(l, m@, on_line@),
                    graph.wf(),
                    graph.positions() == pos,
                    entries_match(m@, w, pos),
                    graph.adjacency() == chained(base, pos, on_line@.take(i + 1)),
                    orthogonal(a0, p0) ==> orthogonal(graph.adjacency(), pos),
                decreases k - i,
            {
                let (pa, a) = on_line[i];
                let (pb, b) = on_line[i + 1];
                proof {
                    assert(on_line@.contains(on_line@[i as int]));
                    assert(on_line@.contains(on_line@[i + 1]));
                    let ka = choose|q: int| 0 <= q < m@.len() && m@[q] == on_line@[i as int];
                    let kb = choose|q: int| 0 <= q < m@.len() && m@[q] == on_line@[i + 1];
                    assert(m@[ka].1@ < pos.len() && pos[m@[ka].1@ as int] == pa);
                    assert(m@[kb].1@ < pos.len() && pos[m@[kb].1@ as int] == pb);
                    lemma_on_segment_along(l, pa, pb);
                    graph.lemma_wf_facts();
                    if orthogonal(a0, p0) {
                        lemma_with_edge_orthogonal(graph.adjacency(), pos, a@ as int, b@ as int, manhattan(pa, pb) as u32);
                    }
                    assert(on_line@.take(i + 2).drop_last() =~= on_line@.take(i + 1));
                }
                let _ = graph.add_edge(a, b);
                i += 1;
            }
            assert(on_line@.take(i + 1) =~= on_line@);
            }
        }
        assert(lines.take(nl as int) =~= lines);
        m
    }
}

/// The nodes where the lead lines of the entity named `id` start, in the
/// order of the lines, for those starts that have a node in `m`.
pub open spec fn entity_nodes(id: Seq<char>, lines: Seq<LeadLine>, m: Seq<(Point, NodeId)>) -> Seq<NodeId>
    decreases lines.len(),
{
    if lines.len() == 0 {
        Seq::empty()
    } else {
        let rest = entity_nodes(id, lines.drop_last(), m);
        let l = lines.last();
        if l.source_entity_id@ == id && lookup(m, l.start) is Some {
            rest.push(lookup(m, l.start)->0)
        } else {
            rest
        }
    }
}

impl OrthogonalRouter {
    /// The nodes where the lead lines of `entity_id` start, in the order of
    /// the lines.
    pub fn find_entity_nodes(&self, entity_id: &EntityId, lead_lines: &[LeadLine], node_map: &Vec<(Point, NodeId)>) -> (r: Vec<NodeId>)
        ensures
            r@ == entity_nodes(entity_id@, lead_lines@, node_map@),
    {
        let mut out: Vec<NodeId> = Vec::new();
        let n = lead_lines.len();
        for j in 0..n
            invariant
                n == lead_lines@.len(),
                out@ == entity_nodes(entity_id@, lead_lines@.take(j as int), node_map@),
        {
            assert(lead_lines@.take(j + 1).drop_last() =~= lead_lines@.take(j as int));
            let line = &lead_lines[j];
            if line.source_entity_id.same_as(entity_id) {
                if let Some(id) = find_entry(node_map, line.start) {
                    out.push(id);
                }
            }
        }
        assert(lead_lines@.take(n as int) =~= lead_lines@);
        out
    }
}

/// Adding an edge and its reverse lists two more edges.
proof fn lemma_listed_with_edge(adj: Seq<Seq<(usize, u32)>>, a: int, b: int, w: u32)
    requires
        0 <= a < adj.len(),
        0 <= b < adj.len(),
    ensures
        RoutingGraph::listed_edges(with_edge(adj, a, b, w)) == RoutingGraph::listed_edges(adj) + 2,
{
    let once = adj.update(a, adj[a].push((b as usize, w)));
    lemma_listed_update(adj, a, adj[a].push((b as usize, w)));
    lemma_listed_update(once, b, once[b].push((a as usize, w)));
}

/// Replacing one edge list changes the count by the difference in length.
proof fn lemma_listed_update(adj: Seq<Seq<(usize, u32)>>, i: int, e: Seq<(usize, u32)>)
    requires
        0 <= i < adj.len(),
    ensures
        RoutingGraph::listed_edges(adj.update(i, e)) == RoutingGraph::listed_edges(adj) - adj[i].len() + e.len(),
    decreases adj.len(),
{
    let u = adj.update(i, e);
    if i == adj.len() - 1 {
        assert(u.drop_last() =~= adj.drop_last());
    } else {
        lemma_listed_update(adj.drop_last(), i, e);
        assert(u.drop_last() =~= adj.drop_last().update(i, e));
    }
}

/// Chaining `s` lists two edges for each pair of neighbours.
proof fn lemma_listed_chained(adj: Seq<Seq<(usize, u32)>>, positions: Seq<Point>, s: Seq<(Point, NodeId)>)
    requires
        forall|k: int| 0 <= k < s.len() ==> (#[trigger] s[k]).1@ < adj.len(),
    ensures
        chained(adj, positions, s).len() == adj.len(),
        RoutingGraph::listed_edges(chained(adj, positions, s)) == RoutingGraph::listed_edges(adj) + if s.len() < 2 {
            0
        } else {
            2 * (s.len() - 1)
        },
    decreases s.len(),
{
    if s.len() >= 2 {
        let s0 = s.drop_last();
        assert forall|k: int| 0 <= k < s0.len() implies (#[trigger] s0[k]).1@ < adj.len() by {
            assert(s0[k] == s[k]);
        }
        lemma_listed_chained(adj, positions, s0);
        let a = s[s.len() - 2].1@ as int;
        let b = s.last().1@ as int;
        lemma_listed_with_edge(chained(adj, positions, s0), a, b, manhattan(positions[a], positions[b]) as u32);
    }
}

/// Empty edge lists add no edges.
proof fn lemma_listed_padded(adj: Seq<Seq<(usize, u32)>>, k: nat)
    ensures
        RoutingGraph::listed_edges(padded(adj, k)) == RoutingGraph::listed_edges(adj),
    decreases k,
{
    if k > 0 {
        lemma_listed_padded(adj, (k - 1) as nat);
        assert(padded(adj, k).drop_last() =~= padded(adj, (k - 1) as nat));
    } else {
        assert(padded(adj, k) =~= adj);
    }
}

/// The entries of `m` on a line, listed in order, are no more than `m`
/// has.
proof fn lemma_lists_on_len(l: LeadLine, m: Seq<(Point, NodeId)>, s: Seq<(Point, NodeId)>)
    requires
        lists_on(l, m, s),
    ensures
        s.len() <= m.len(),
{
    assert(s.no_duplicates()) by {
        assert forall|i: int, j: int| 0 <= i < s.len() && 0 <= j < s.len() && i != j implies s[i] != s[j] by {
            if i < j {
                assert(along(l, s[i].0) < along(l, s[j].0));
            } else {
                assert(along(l, s[j].0) < along(l, s[i].0));
            }
        }
    }
    s.unique_seq_to_set();
    m.lemma_cardinality_of_set();
    assert(s.to_set().subset_of(m.to_set())) by {
        assert forall|e: (Point, NodeId)| s.to_set().contains(e) implies m.to_set().contains(e) by {
            assert(s.contains(e));
        }
    }
    vstd::set_lib::lemma_len_subset(s.to_set(), m.to_set());
}

/// The positions of the routing graph for `intersections` and `lines`:
/// each point that gets a node, once, in order of first appearance.
pub open spec fn routing_points(intersections: Seq<Point>, lines: Seq<LeadLine>) -> Seq<Point> {
    dedup(wanted_points(intersections, lines))
}

/// Each routing point with the node numbered by its place.
pub open spec fn routing_entries(intersections: Seq<Point>, lines: Seq<LeadLine>) -> Seq<(Point, NodeId)> {
    routing_points(intersections, lines).map(|k: int, p: Point| (p, NodeId::numbered(k as usize)))
}

/// The edges of the routing graph for `intersections` and `lines`.
pub open spec fn routing_adjacency(intersections: Seq<Point>, lines: Seq<LeadLine>) -> Seq<Seq<(usize, u32)>> {
    all_chained(
        padded(Seq::empty(), routing_points(intersections, lines).len()),
        routing_points(intersections, lines),
        lines,
        routing_entries(intersections, lines),
    )
}

/// Whether (`ns`, `ws`) is a walk in `adj` from one of `from` to one of
/// `to`.
pub open spec fn candidate_walk(adj: Seq<Seq<(usize, u32)>>, from: Seq<NodeId>, to: Seq<NodeId>, ns: Seq<usize>, ws: Seq<u32>) -> bool {
    exists|a: int, b: int| 0 <= a < from.len() && 0 <= b < to.len() && #[trigger] walk_between(adj, ns, ws, from[a]@, to[b]@)
}

/// Whether each coordinate of `points`, times their number, is a `u32`:
/// no path cost through them can then overflow.
pub open spec fn coordinates_fit(points: Seq<Point>) -> bool {
    forall|k: int| 0 <= k < points.len() ==> (#[trigger] points[k]).x * points.len() <= u32::MAX && points[k].y * points.len() <= u32::MAX
}

/// Adding points to no points lists each once.
proof fn lemma_with_points_empty(qs: Seq<Point>)
    ensures
        with_points(Seq::empty(), qs) == dedup(qs),
    decreases qs.len(),
{
    if qs.len() > 0 {
        lemma_with_points_empty(qs.drop_last());
    }
}

/// Edges between positions on a line, weighted by distance, between
/// points whose coordinates fit, keep every path cost a `u32`.
proof fn lemma_weights_bounded(adj: Seq<Seq<(usize, u32)>>, positions: Seq<Point>, w: Seq<Point>)
    requires
        orthogonal(adj, positions),
        symmetric(adj),
        adj.len() == positions.len(),
        positions.len() <= w.len(),
        coordinates_fit(w),
        forall|p: Point| #[trigger] positions.contains(p) ==> w.contains(p),
    ensures
        weights_bounded(adj),
{
    assert forall|i: int, k: int| 0 <= i < adj.len() && 0 <= k < adj[i].len() implies (#[trigger] adj[i][k]).1 * adj.len() <= u32::MAX by {
        let d = adj[i][k].0 as int;
        assert(d < adj.len());
        let p = positions[i];
        let q = positions[d];
        assert(positions.contains(p));
        assert(positions.contains(q));
        let kp = choose|t: int| 0 <= t < w.len() && w[t] == p;
        let kq = choose|t: int| 0 <= t < w.len() && w[t] == q;
        assert(w[kp].x * w.len() <= u32::MAX && w[kp].y * w.len() <= u32::MAX);
        assert(w[kq].x * w.len() <= u32::MAX && w[kq].y * w.len() <= u32::MAX);
        let wt = adj[i][k].1 as int;
        assert(wt == manhattan(p, q));
        let c: int = if p.x == q.x {
            if p.y >= q.y { p.y as int } else { q.y as int }
        } else {
            if p.x >= q.x { p.x as int } else { q.x as int }
        };
        assert(wt <= c);
        assert(c * w.len() <= u32::MAX);
        assert(wt * adj.len() <= c * w.len()) by (nonlinear_arith)
            requires
                0 <= wt <= c,
                0 <= adj.len() <= w.len(),
        ;
    }
}

/// A walk through nodes with positions lists positions all known.
proof fn lemma_known_all(nodes: Seq<NodeId>, positions: Seq<Point>)
    requires
        forall|i: int| 0 <= i < nodes.len() ==> (#[trigger] nodes[i])@ < positions.len(),
    ensures
        known_positions(nodes, positions) == nodes.map_values(|n: NodeId| n@).map_values(|k: usize| positions[k as int]),
    decreases nodes.len(),
{
    if nodes.len() > 0 {
        let n0 = nodes.drop_last();
        assert forall|i: int| 0 <= i < n0.len() implies (#[trigger] n0[i])@ < positions.len() by {
            assert(n0[i] == nodes[i]);
        }
        lemma_known_all(n0, positions);
        assert(nodes.map_values(|n: NodeId| n@).map_values(|k: usize| positions[k as int]) =~= n0.map_values(|n: NodeId| n@).map_values(
            |k: usize| positions[k as int],
        ).push(positions[nodes.last()@ as int]));
    } else {
        assert(nodes.map_values(|n: NodeId| n@).map_values(|k: usize| positions[k as int]) =~= Seq::<Point>::empty());
    }
}

/// The cheapest path from one of `from` to one of `to`: over each pair in
/// turn, the first of the cheapest, when one costs less than `u32::MAX`.
fn best_route(graph: &RoutingGraph, from: &Vec<NodeId>, to: &Vec<NodeId>) -> (r: Option<GraphPath>)
    requires
        graph.wf(),
        weights_bounded(graph.adjacency()),
    ensures
        r is Some <==> exists|ns: Seq<usize>, ws: Seq<u32>| candidate_walk(graph.adjacency(), from@, to@, ns, ws) && cost(ws) < u32::MAX,
        r matches Some(p) ==> exists|ws: Seq<u32>| #[trigger] candidate_walk(graph.adjacency(), from@, to@, p.node_seq(), ws) && cost(ws)
            == p.total_cost,
        r matches Some(p) ==> forall|ns: Seq<usize>, ws: Seq<u32>| #[trigger] candidate_walk(graph.adjacency(), from@, to@, ns, ws) ==> p.total_cost
            <= cost(ws),
{
    let ghost adj = graph.adjacency();
    let mut best: Option<GraphPath> = None;
    let mut best_cost: u32 = u32::MAX;
    let nf = from.len();
    let nt = to.len();
    let mut a: usize = 0;
    while a < nf
        invariant
            nf == from@.len(),
            nt == to@.len(),
            a <= nf,
            adj == graph.adjacency(),
            graph.wf(),
            weights_bounded(adj),
            best is None ==> best_cost == u32::MAX,
            best matches Some(p) ==> p.total_cost == best_cost && best_cost < u32::MAX && exists|ws: Seq<u32>| #[trigger] candidate_walk(
                adj,
                from@,
                to@,
                p.node_seq(),
                ws,
            ) && cost(ws) == best_cost,
            forall|x: int, y: int, ns: Seq<usize>, ws: Seq<u32>|
                0 <= x < a && 0 <= y < nt && #[trigger] walk_between(adj, ns, ws, from@[x]@, to@[y]@) ==> best_cost <= cost(ws),
        decreases nf - a,
    {
        let mut b: usize = 0;
        while b < nt
            invariant
                nf == from@.len(),
                nt == to@.len(),
                a < nf,
                b <= nt,
                adj == graph.adjacency(),
                graph.wf(),
                weights_bounded(adj),
                best is None ==> best_cost == u32::MAX,
                best matches Some(p) ==> p.total_cost == best_cost && best_cost < u32::MAX && exists|ws: Seq<u32>| #[trigger] candidate_walk(
                    adj,
                    from@,
                    to@,
                    p.node_seq(),
                    ws,
                ) && cost(ws) == best_cost,
                forall|x: int, y: int, ns: Seq<usize>, ws: Seq<u32>|
                    0 <= x < nt + nf && (x < a || (x == a && y < b)) && 0 <= x < nf && 0 <= y < nt && #[trigger] walk_between(
                        adj,
                        ns,
                        ws,
                        from@[x]@,
                        to@[y]@,
                    ) ==> best_cost <= cost(ws),
            decreases nt - b,
        {
            let f = from[a];
            let t = to[b];
            proof {
                lemma_bounded_costs_fit(adj, f@);
            }
            match DijkstraPathfinder::find_path(graph, f, t) {
                Some(path) => {
                    let ghost witness: Seq<u32> = if f == t {
                        Seq::empty()
                    } else {
                        choose|ws: Seq<u32>| #[trigger] walk_between(adj, path.node_seq(), ws, f@, t@) && cost(ws) == path.total_cost
                    };
                    proof {
                        if f == t {
                            assert(walk_between(adj, path.node_seq(), witness, f@, t@));
                            assert forall|ns: Seq<usize>, ws: Seq<u32>| #[trigger] walk_between(adj, ns, ws, f@, t@) implies path.total_cost <= cost(ws) by {
                                lemma_cost_nonneg(ws);
                            }
                        }
                        assert(walk_between(adj, path.node_seq(), witness, from@[a as int]@, to@[b as int]@));
                        assert(candidate_walk(adj, from@, to@, path.node_seq(), witness));
                    }
                    if path.total_cost < best_cost {
                        best_cost = path.total_cost;
                        best = Some(path);
                    }
                },
                None => {
                    proof {
                        NodeId::lemma_view_injective(f, t);
                    }
                },
            }
            b += 1;
        }
        a += 1;
    }
    proof {
        if best is None {
            assert forall|ns: Seq<usize>, ws: Seq<u32>| candidate_walk(adj, from@, to@, ns, ws) implies cost(ws) >= u32::MAX by {
                let (x, y) = choose|x: int, y: int| 0 <= x < from@.len() && 0 <= y < to@.len() && #[trigger] walk_between(adj, ns, ws, from@[x]@, to@[y]@);
                assert(walk_between(adj, ns, ws, from@[x]@, to@[y]@));
            }
        }
        assert forall|ns: Seq<usize>, ws: Seq<u32>| #[trigger] candidate_walk(adj, from@, to@, ns, ws) implies best_cost <= cost(ws) by {
            let (x, y) = choose|x: int, y: int| 0 <= x < from@.len() && 0 <= y < to@.len() && #[trigger] walk_between(adj, ns, ws, from@[x]@, to@[y]@);
            assert(walk_between(adj, ns, ws, from@[x]@, to@[y]@));
        }
    }
    best
}

/// The candidate start nodes: where the lead lines of the entity named
/// `from` start.
pub open spec fn from_nodes(intersections: Seq<Point>, lines: Seq<LeadLine>) -> Seq<NodeId> {
    entity_nodes("from"@, lines, routing_entries(intersections, lines))
}

/// The candidate end nodes: where the lead lines of the entity named `to`
/// start.
pub open spec fn to_nodes(intersections: Seq<Point>, lines: Seq<LeadLine>) -> Seq<NodeId> {
    entity_nodes("to"@, lines, routing_entries(intersections, lines))
}

/// A node found by `lookup` is one of the entries' nodes.
proof fn lemma_lookup_in(m: Seq<(Point, NodeId)>, p: Point)
    ensures
        lookup(m, p) matches Some(n) ==> exists|j: int| 0 <= j < m.len() && (#[trigger] m[j]).1 == n,
    decreases m.len(),
{
    if m.len() > 0 && m[0].0 != p {
        lemma_lookup_in(m.drop_first(), p);
        if let Some(n) = lookup(m, p) {
            let j = choose|j: int| 0 <= j < m.drop_first().len() && (#[trigger] m.drop_first()[j]).1 == n;
            assert(m[j + 1] == m.drop_first()[j]);
        }
    } else if m.len() > 0 {
        assert(m[0].1 == m[0].1);
    }
}

/// The nodes of an entity are entries' nodes.
proof fn lemma_entity_nodes_in(id: Seq<char>, lines: Seq<LeadLine>, m: Seq<(Point, NodeId)>)
    ensures
        forall|k: int|
            #![trigger entity_nodes(id, lines, m)[k]]
            0 <= k < entity_nodes(id, lines, m).len() ==> exists|j: int| 0 <= j < m.len() && (#[trigger] m[j]).1 == entity_nodes(id, lines, m)[k],
    decreases lines.len(),
{
    if lines.len() > 0 {
        let rest = entity_nodes(id, lines.drop_last(), m);
        lemma_entity_nodes_in(id, lines.drop_last(), m);
        lemma_lookup_in(m, lines.last().start);
        let all = entity_nodes(id, lines, m);
        assert forall|k: int| #![trigger all[k]] 0 <= k < all.len() implies exists|j: int| 0 <= j < m.len() && (#[trigger] m[j]).1 == all[k] by {
            if k < rest.len() {
                assert(all[k] == rest[k]);
            }
        }
    }
}

/// A copy of each lead line.
fn copy_lines(v: &Vec<LeadLine>) -> (r: Vec<LeadLine>)
    ensures
        lead_views(r@) == lead_views(v@),
{
    let mut r: Vec<LeadLine> = Vec::new();
    for i in 0..v.len()
        invariant
            r@.len() == i,
            forall|k: int| 0 <= k < i ==> super::lead_lines::lead_view(#[trigger] r@[k]) == super::lead_lines::lead_view(v@[k]),
    {
        let l = &v[i];
        r.push(LeadLine { start: l.start, end: l.end, direction: l.direction, source_entity_id: l.source_entity_id.clone() });
    }
    assert(lead_views(r@) =~= lead_views(v@));
    r
}

impl OrthogonalRouter {
    /// Routes along the given lead lines, with the points where they
    /// cross: builds the routing graph and finds the cheapest path from a
    /// start of a lead line of the entity `from` to one of the entity
    /// `to`. Also returns what was built on the way.
    pub fn route_along(&self, lead_lines: &Vec<LeadLine>, intersections: &Vec<Point>) -> (r: (Option<RoutePath>, RoutingDebugInfo))
        requires
            intersections@.len() + 2 * lead_lines@.len() + 1 < usize::MAX,
            2 * lead_lines@.len() * (intersections@.len() + 2 * lead_lines@.len()) <= usize::MAX,
            coordinates_fit(wanted_points(intersections@, lead_lines@)),
        ensures
            r.0 is Some <==> exists|ns: Seq<usize>, ws: Seq<u32>|
                candidate_walk(
                    routing_adjacency(intersections@, lead_lines@),
                    from_nodes(intersections@, lead_lines@),
                    to_nodes(intersections@, lead_lines@),
                    ns,
                    ws,
                ) && cost(ws) < u32::MAX,
            r.0 matches Some(rp) ==> exists|ns: Seq<usize>, ws: Seq<u32>|
                #[trigger] candidate_walk(
                    routing_adjacency(intersections@, lead_lines@),
                    from_nodes(intersections@, lead_lines@),
                    to_nodes(intersections@, lead_lines@),
                    ns,
                    ws,
                ) && cost(ws) == rp.total_cost && rp.nodes@ == ns.map_values(|k: usize| routing_points(intersections@, lead_lines@)[k as int]),
            r.0 matches Some(rp) ==> forall|ns: Seq<usize>, ws: Seq<u32>|
                #[trigger] candidate_walk(
                    routing_adjacency(intersections@, lead_lines@),
                    from_nodes(intersections@, lead_lines@),
                    to_nodes(intersections@, lead_lines@),
                    ns,
                    ws,
                ) ==> rp.total_cost <= cost(ws),
            r.0 matches Some(rp) ==> forall|i: int|
                0 <= i < rp.nodes@.len() - 1 ==> (#[trigger] rp.nodes@[i]).x == rp.nodes@[i + 1].x || rp.nodes@[i].y == rp.nodes@[i + 1].y,
            lead_views(r.1.lead_lines@) == lead_views(lead_lines@),
            r.1.intersections@ == intersections@,
            r.1.graph_nodes@ == routing_points(intersections@, lead_lines@),
            r.1.edge_count == RoutingGraph::listed_edges(routing_adjacency(intersections@, lead_lines@)) / 2,
            r.1.source_node_count == from_nodes(intersections@, lead_lines@).len(),
            r.1.target_node_count == to_nodes(intersections@, lead_lines@).len(),
    {
        let ghost ints = intersections@;
        let ghost lines = lead_lines@;
        let ghost w = wanted_points(ints, lines);
        let ghost pts = routing_points(ints, lines);
        let mut graph = RoutingGraph::new();
        let m = self.build_graph(&mut graph, lead_lines.as_slice(), intersections.as_slice());
        proof {
            lemma_with_points_empty(w);
            lemma_points_contain(Seq::empty(), w);
            lemma_line_points_len(lines);
            graph.lemma_wf_facts();
            assert(graph.positions() == pts);
            assert forall|k: int| 0 <= k < m@.len() implies #[trigger] m@[k] == routing_entries(ints, lines)[k] by {
                assert(entry_points(m@)[k] == m@[k].0);
                let id = m@[k].1@ as int;
                if id != k {
                    assert(pts[id] == pts[k]);
                }
                NodeId::lemma_numbered(k as usize);
                NodeId::lemma_view_injective(m@[k].1, NodeId::numbered(k as usize));
            }
            assert(m@ =~= routing_entries(ints, lines));
            assert(padded(Seq::<Seq<(usize, u32)>>::empty(), pts.len()) == padded(Seq::<Seq<(usize, u32)>>::empty(), (pts.len() - 0) as nat));
            assert(graph.adjacency() == routing_adjacency(ints, lines));
            assert forall|p: Point| #[trigger] pts.contains(p) implies w.contains(p) by {}
            lemma_weights_bounded(graph.adjacency(), pts, w);
        }
        let from_id = EntityId::new("from");
        let to_id = EntityId::new("to");
        let from_list = self.find_entity_nodes(&from_id, lead_lines.as_slice(), &m);
        let to_list = self.find_entity_nodes(&to_id, lead_lines.as_slice(), &m);
        assert(from_list@ == from_nodes(ints, lines));
        assert(to_list@ == to_nodes(ints, lines));
        let best = best_route(&graph, &from_list, &to_list);
        proof {
            assert(RoutingGraph::listed_edges(Seq::<Seq<(usize, u32)>>::empty()) == 0);
            assert(2 * lines.len() * m@.len() <= 2 * lines.len() * (ints.len() + 2 * lines.len())) by (nonlinear_arith)
                requires
                    m@.len() <= ints.len() + 2 * lines.len(),
            ;
        }
        let edge_count = graph.edge_count();
        let mut graph_nodes: Vec<Point> = Vec::new();
        for k in 0..m.len()
            invariant
                graph_nodes@ == entry_points(m@).take(k as int),
        {
            graph_nodes.push(m[k].0);
            assert(entry_points(m@).take(k + 1) =~= entry_points(m@).take(k as int).push(m@[k as int].0));
        }
        assert(entry_points(m@).take(m@.len() as int) =~= entry_points(m@));
        let mut ints_copy: Vec<Point> = Vec::new();
        for k in 0..intersections.len()
            invariant
                ints_copy@ == intersections@.take(k as int),
        {
            ints_copy.push(intersections[k]);
            assert(intersections@.take(k + 1) =~= intersections@.take(k as int).push(intersections@[k as int]));
        }
        assert(intersections@.take(intersections@.len() as int) =~= intersections@);
        let debug = RoutingDebugInfo {
            lead_lines: copy_lines(lead_lines),
            intersections: ints_copy,
            graph_nodes,
            edge_count,
            source_node_count: from_list.len(),
            target_node_count: to_list.len(),
        };
        let route = match best {
            Some(path) => {
                let ghost ns = path.node_seq();
                let ghost ws = choose|ws: Seq<u32>| #[trigger] candidate_walk(graph.adjacency(), from_list@, to_list@, ns, ws) && cost(ws)
                    == path.total_cost;
                proof {
                    let adj = graph.adjacency();
                    let (x, y) = choose|x: int, y: int| 0 <= x < from_list@.len() && 0 <= y < to_list@.len() && #[trigger] walk_between(adj, ns, ws, from_list@[x]@, to_list@[y]@);
                    lemma_entity_nodes_in("to"@, lines, m@);
                    let j = choose|j: int| 0 <= j < m@.len() && (#[trigger] m@[j]).1 == to_list@[y];
                    assert forall|i: int| 0 <= i < path.nodes@.len() implies (#[trigger] path.nodes@[i])@ < pts.len() by {
                        assert(ns[i] == path.nodes@[i]@);
                        if i < ws.len() {
                            assert(walk_step(adj, ns, ws, i));
                        } else {
                            assert(ns[i] == ns.last());
                        }
                    }
                    lemma_known_all(path.nodes@, pts);
                    assert(path.nodes@.map_values(|n: NodeId| n@) == ns);
                }
                match path.to_points(&graph) {
                    Some(points) => {
                        let rp = RoutePath::new(points, path.total_cost);
                        proof {
                            let adj = graph.adjacency();
                            let (x, y) = choose|x: int, y: int| 0 <= x < from_list@.len() && 0 <= y < to_list@.len() && #[trigger] walk_between(adj, ns, ws, from_list@[x]@, to_list@[y]@);
                            assert forall|i: int| 0 <= i < rp.nodes@.len() - 1 implies (#[trigger] rp.nodes@[i]).x == rp.nodes@[i + 1].x
                                || rp.nodes@[i].y == rp.nodes@[i + 1].y by {
                                assert(walk_step(adj, ns, ws, i));
                                let q = choose|q: int| 0 <= q < adj[ns[i] as int].len() && adj[ns[i] as int][q] == (ns[i + 1], ws[i]);
                                assert(adj[ns[i] as int][q].0 < adj.len());
                            }
                            assert(candidate_walk(adj, from_list@, to_list@, ns, ws));
                        }
                        Some(rp)
                    },
                    None => None,
                }
            },
            None => None,
        };
        (route, debug)
    }
}

/// The lead line configuration for routing with `cfg` on `canvas`: the
/// router's margin, lines that go at least 30 pixels before turning, and
/// the canvas.
pub open spec fn lead_config(cfg: RoutingConfig, canvas: Rectangle) -> LeadLineConfig {
    LeadLineConfig { margin: cfg.margin, min_lead_extension: 30, canvas_bounds: canvas }
}

impl OrthogonalRouter {
    /// The entities of a routing problem: `from` (named `from`), `to`
    /// (named `to`), then each obstacle (named `obstacle_` and its place).
    pub fn routing_entities(from: &Rectangle, to: &Rectangle, obstacles: &[Rectangle]) -> (r: Vec<RoutingEntity>)
        ensures
            r@.len() == obstacles@.len() + 2,
            r@[0].id@ == "from"@,
            r@[0].bounds == *from,
            r@[1].id@ == "to"@,
            r@[1].bounds == *to,
            forall|i: int| 0 <= i < obstacles@.len() ==> (#[trigger] r@[i + 2]).id@ == "obstacle_"@ + decimal(i as nat) && r@[i + 2].bounds
                == obstacles@[i],
    {
        let mut entities: Vec<RoutingEntity> = Vec::new();
        entities.push(RoutingEntity::new(EntityId::new("from"), *from));
        entities.push(RoutingEntity::new(EntityId::new("to"), *to));
        let n = obstacles.len();
        for i in 0..n
            invariant
                n == obstacles@.len(),
                entities@.len() == i + 2,
                entities@[0].id@ == "from"@,
                entities@[0].bounds == *from,
                entities@[1].id@ == "to"@,
                entities@[1].bounds == *to,
                forall|k: int| 0 <= k < i ==> (#[trigger] entities@[k + 2]).id@ == "obstacle_"@ + decimal(k as nat) && entities@[k + 2].bounds
                    == obstacles@[k],
        {
            let mut name = "obstacle_".to_owned();
            push_decimal(&mut name, i as u64);
            entities.push(RoutingEntity::new(EntityId::new(name.as_str()), obstacles[i]));
        }
        entities
    }

    /// The lead lines of `entities` on `canvas_bounds`.
    pub fn lead_lines_for(&self, entities: &[RoutingEntity], canvas_bounds: &Rectangle) -> (r: Vec<LeadLine>)
        requires
            canvas_bounds.fits(),
            forall|i: int| 0 <= i < entities@.len() ==> lead_room((#[trigger] entities@[i]).bounds, lead_config(self.configuration(), *canvas_bounds)),
            forall|i: int| 0 <= i < entities@.len() ==> expandable((#[trigger] entities@[i]).bounds, self.configuration().margin),
        ensures
            lead_views(r@) == all_lead_lines(lead_config(self.configuration(), *canvas_bounds), entities@),
    {
        let generator = LeadLineGenerator::new(LeadLineConfig { margin: self.config.margin, min_lead_extension: 30, canvas_bounds: *canvas_bounds });
        assert(generator.configuration() == lead_config(self.configuration(), *canvas_bounds));
        generator.generate_lead_lines(entities)
    }
}

/// Whether `lead_lines_for` can work on `entities`: the canvas fits, and
/// each entity has room for its lead lines and can be grown by the margin.
pub open spec fn lead_lines_allowed(cfg: RoutingConfig, entities: Seq<RoutingEntity>, canvas: Rectangle) -> bool {
    &&& canvas.fits()
    &&& forall|i: int| 0 <= i < entities.len() ==> lead_room((#[trigger] entities[i]).bounds, lead_config(cfg, canvas))
    &&& forall|i: int| 0 <= i < entities.len() ==> expandable((#[trigger] entities[i]).bounds, cfg.margin)
}

/// Whether `b` has room for its lead lines and can be grown by `margin`.
fn bounds_allowed(b: &Rectangle, margin: u32) -> (r: bool)
    ensures
        r == (lead_room(*b, LeadLineConfig { margin, min_lead_extension: 30, canvas_bounds: *b }) && expandable(*b, margin)),
{
    let (x, y, w, h, m) = (b.x as u64, b.y as u64, b.width as u64, b.height as u64, margin as u64);
    if x + w > u32::MAX as u64 || y + h > u32::MAX as u64 {
        return false;
    }
    if x + w + m + 30 > u32::MAX as u64 || y + h + m + 30 > u32::MAX as u64 {
        return false;
    }
    if w + 2 * m > u32::MAX as u64 || h + 2 * m > u32::MAX as u64 {
        return false;
    }
    let ex = if x >= m { x - m } else { 0 };
    let ey = if y >= m { y - m } else { 0 };
    ex + w + 2 * m <= u32::MAX as u64 && ey + h + 2 * m <= u32::MAX as u64
}

/// Whether both coordinates of `p`, times `n`, are `u32`s.
pub open spec fn point_fits(p: Point, n: int) -> bool {
    p.x * n <= u32::MAX && p.y * n <= u32::MAX
}

/// Whether `p`'s coordinates times `n` are `u32`s.
fn point_within(p: Point, n: u128) -> (r: bool)
    requires
        n <= usize::MAX,
    ensures
        r == point_fits(p, n as int),
{
    proof {
        assert(p.x * n <= 0x1_0000_0000 * 0x1_0000_0000_0000_0000) by (nonlinear_arith)
            requires
                p.x <= u32::MAX,
                n <= 0x1_0000_0000_0000_0000,
        ;
        assert(p.y * n <= 0x1_0000_0000 * 0x1_0000_0000_0000_0000) by (nonlinear_arith)
            requires
                p.y <= u32::MAX,
                n <= 0x1_0000_0000_0000_0000,
        ;
    }
    p.x as u128 * n <= u32::MAX as u128 && p.y as u128 * n <= u32::MAX as u128
}

/// Where the start and end of each line stand among `line_points`.
proof fn lemma_line_points_index(lines: Seq<LeadLine>, i: int)
    requires
        0 <= i < lines.len(),
    ensures
        line_points(lines).len() == 2 * lines.len(),
        line_points(lines)[2 * i] == lines[i].start,
        line_points(lines)[2 * i + 1] == lines[i].end,
    decreases lines.len(),
{
    lemma_line_points_len(lines);
    lemma_line_points_len(lines.drop_last());
    if i < lines.len() - 1 {
        lemma_line_points_index(lines.drop_last(), i);
    }
}

impl OrthogonalRouter {
    /// Whether `lead_lines_for` can work on `entities` and `canvas_bounds`:
    /// exactly its `requires`.
    pub fn lead_lines_ok(&self, entities: &[RoutingEntity], canvas_bounds: &Rectangle) -> (r: bool)
        ensures
            r == lead_lines_allowed(self.configuration(), entities@, *canvas_bounds),
    {
        let c = canvas_bounds;
        if c.x as u64 + c.width as u64 > u32::MAX as u64 || c.y as u64 + c.height as u64 > u32::MAX as u64 {
            return false;
        }
        let margin = self.config.margin;
        let n = entities.len();
        for i in 0..n
            invariant
                n == entities@.len(),
                margin == self.configuration().margin,
                forall|j: int| 0 <= j < i ==> lead_room((#[trigger] entities@[j]).bounds, lead_config(self.configuration(), *canvas_bounds)),
                forall|j: int| 0 <= j < i ==> expandable((#[trigger] entities@[j]).bounds, margin),
        {
            if !bounds_allowed(&entities[i].bounds, margin) {
                assert(!(lead_room(entities@[i as int].bounds, lead_config(self.configuration(), *canvas_bounds)) && expandable(
                    entities@[i as int].bounds,
                    margin,
                )));
                return false;
            }
        }
        true
    }

    /// Whether `route_along` can work on `lead_lines` and `intersections`:
    /// exactly its `requires`.
    pub fn route_inputs_ok(lead_lines: &Vec<LeadLine>, intersections: &Vec<Point>) -> (r: bool)
        ensures
            r == (intersections@.len() + 2 * lead_lines@.len() + 1 < usize::MAX && 2 * lead_lines@.len() * (
            intersections@.len() + 2 * lead_lines@.len()) <= usize::MAX && coordinates_fit(
                wanted_points(intersections@, lead_lines@),
            )),
    {
        let ni = intersections.len() as u128;
        let nl = lead_lines.len() as u128;
        if !(ni + 2 * nl + 1 < usize::MAX as u128) {
            return false;
        }
        let total = ni + 2 * nl;
        proof {
            assert(2 * nl * total <= 0xffff_ffff_ffff_ffff * 0xffff_ffff_ffff_ffff) by (nonlinear_arith)
                requires
                    2 * nl <= total,
                    total <= 0xffff_ffff_ffff_ffff,
            ;
        }
        if 2 * nl * total > usize::MAX as u128 {
            return false;
        }
        let ghost w = wanted_points(intersections@, lead_lines@);
        proof {
            lemma_line_points_len(lead_lines@);
            assert(w.len() == total);
        }
        let ni_u = intersections.len();
        for k in 0..ni_u
            invariant
                ni_u == intersections@.len(),
                w == wanted_points(intersections@, lead_lines@),
                w.len() == total,
                total <= usize::MAX,
                forall|j: int| 0 <= j < k ==> point_fits(#[trigger] w[j], total as int),
        {
            assert(w[k as int] == intersections@[k as int]);
            if !point_within(intersections[k], total) {
                return false;
            }
        }
        let nl_u = lead_lines.len();
        for i in 0..nl_u
            invariant
                ni_u == intersections@.len(),
                nl_u == lead_lines@.len(),
                w == wanted_points(intersections@, lead_lines@),
                w.len() == total,
                total <= usize::MAX,
                total == ni_u + 2 * nl_u,
                forall|j: int| 0 <= j < ni_u + 2 * i ==> point_fits(#[trigger] w[j], total as int),
        {
            proof {
                lemma_line_points_index(lead_lines@, i as int);
                assert(w[ni_u + 2 * i] == lead_lines@[i as int].start);
                assert(w[ni_u + 2 * i + 1] == lead_lines@[i as int].end);
            }
            if !point_within(lead_lines[i].start, total) || !point_within(lead_lines[i].end, total) {
                return false;
            }
        }
        assert(coordinates_fit(w)) by {
            assert forall|k: int| 0 <= k < w.len() implies (#[trigger] w[k]).x * w.len() <= u32::MAX && w[k].y * w.len() <= u32::MAX by {
                assert(point_fits(w[k], total as int));
            }
        }
        true
    }
}

/// Each lead line gives two points.
proof fn lemma_line_points_len(lines: Seq<LeadLine>)
    ensures
        line_points(lines).len() == 2 * lines.len(),
    decreases lines.len(),
{
    if lines.len() > 0 {
        lemma_line_points_len(lines.drop_last());
    }
}

} // verus!
