//! Paths through the routing graph.

use super::graph::{edge_view, symmetric, NodeId, RoutingEdge, RoutingGraph};
use super::Point;
use crate::infrastructure::types::NonEmpty;
use vstd::prelude::*;

verus! {

/// A path through the routing graph.
#[derive(Debug, Clone)]
pub struct GraphPath {
    /// The nodes of the path, in order.
    pub nodes: NonEmpty<NodeId>,
    /// Total cost of the path.
    pub total_cost: u32,
}

impl GraphPath {
    /// The node numbers of the path, in order.
    pub open spec fn node_seq(self) -> Seq<usize> {
        self.nodes@.map_values(|n: NodeId| n@)
    }

    /// Creates a path.
    pub fn new(nodes: NonEmpty<NodeId>, total_cost: u32) -> (r: Self)
        ensures
            r.nodes@ == nodes@,
            r.total_cost == total_cost,
    {
        GraphPath { nodes, total_cost }
    }
}

/// The positions of those `nodes` that the graph has (a node number below
/// the number of positions), in order.
pub open spec fn known_positions(nodes: Seq<NodeId>, positions: Seq<Point>) -> Seq<Point>
    decreases nodes.len(),
{
    if nodes.len() == 0 {
        Seq::empty()
    } else {
        let rest = known_positions(nodes.drop_last(), positions);
        if nodes.last()@ < positions.len() {
            rest.push(positions[nodes.last()@ as int])
        } else {
            rest
        }
    }
}

impl GraphPath {
    /// The positions of the path's nodes in `graph`, skipping nodes the
    /// graph does not have; `None` when it has none of them.
    pub fn to_points(&self, graph: &RoutingGraph) -> (r: Option<NonEmpty<Point>>)
        requires
            graph.wf(),
        ensures
            known_positions(self.nodes@, graph.positions()).len() == 0 ==> r is None,
            r matches Some(ps) ==> ps@ == known_positions(self.nodes@, graph.positions()),
            known_positions(self.nodes@, graph.positions()).len() > 0 ==> r is Some,
    {
        let nodes = self.nodes.iter();
        let mut points: Vec<Point> = Vec::new();
        let mut i: usize = 0;
        while i < nodes.len()
            invariant
                nodes@.len() == self.nodes@.len(),
                forall|k: int| 0 <= k < nodes@.len() ==> *nodes@[k] == self.nodes@[k],
                graph.wf(),
                i <= nodes@.len(),
                points@ == known_positions(self.nodes@.take(i as int), graph.positions()),
            decreases nodes@.len() - i,
        {
            let id = *nodes[i];
            assert(self.nodes@.take(i + 1).drop_last() =~= self.nodes@.take(i as int));
            if let Some(node) = graph.get_node(id) {
                points.push(node.position);
            }
            i += 1;
        }
        assert(self.nodes@.take(nodes@.len() as int) =~= self.nodes@);
        if points.len() == 0 {
            None
        } else {
            let head = points.remove(0);
            let r = NonEmpty::from_head_and_tail(head, points);
            assert(r@ =~= known_positions(self.nodes@, graph.positions()));
            Some(r)
        }
    }
}

/// The path to `node` that the predecessor links give: follow them back
/// from `node` for `steps` steps at most, then reverse.
pub open spec fn walk_back(previous: Seq<Option<usize>>, node: usize, steps: nat) -> Seq<usize>
    decreases steps,
{
    if steps == 0 || node >= previous.len() {
        seq![node]
    } else {
        match previous[node as int] {
            None => seq![node],
            Some(p) => walk_back(previous, p, (steps - 1) as nat).push(node),
        }
    }
}

/// Finds shortest paths with Dijkstra's algorithm.
pub struct DijkstraPathfinder;

/// Finds paths with the A* algorithm.
pub struct AStarPathfinder;

impl DijkstraPathfinder {
    /// The path to `goal` given each node's predecessor (indexed by node
    /// number), following at most as many links as there are nodes.
    pub fn reconstruct_path(previous: &Vec<Option<usize>>, goal: NodeId) -> (r: NonEmpty<NodeId>)
        ensures
            r@.map_values(|n: NodeId| n@ as usize) == walk_back(previous@, goal@, previous@.len()),
    {
        let mut reversed: Vec<usize> = Vec::new();
        let mut current = goal.value();
        let mut steps = previous.len();
        reversed.push(current);
        let ghost total = previous@.len();
        loop
            invariant
                steps <= total,
                total == previous@.len(),
                reversed@.len() >= 1,
                reversed@[reversed@.len() - 1] == current,
                walk_back(previous@, goal@, total as nat) == walk_back(previous@, current, steps as nat) + reversed@.reverse().drop_first(),
            ensures
                walk_back(previous@, current, steps as nat) == seq![current],
                reversed@.len() >= 1,
                reversed@[reversed@.len() - 1] == current,
                walk_back(previous@, goal@, total as nat) == walk_back(previous@, current, steps as nat) + reversed@.reverse().drop_first(),
            decreases steps,
        {
            if steps == 0 || current >= previous.len() {
                break;
            }
            match previous[current] {
                None => break,
                Some(p) => {
                    let ghost before = reversed@;
                    reversed.push(p);
                    assert(reversed@.reverse().drop_first() =~= seq![current] + before.reverse().drop_first());
                    assert(walk_back(previous@, current, steps as nat) == walk_back(previous@, p, (steps - 1) as nat).push(current));
                    assert(walk_back(previous@, p, (steps - 1) as nat).push(current) + before.reverse().drop_first()
                        =~= walk_back(previous@, p, (steps - 1) as nat) + reversed@.reverse().drop_first());
                    current = p;
                    steps = steps - 1;
                },
            }
        }
        let mut nodes: Vec<NodeId> = Vec::new();
        let n = reversed.len();
        let mut i = n;
        while i > 0
            invariant
                i <= n,
                n == reversed@.len(),
                nodes@.len() == n - i,
                forall|k: int| 0 <= k < n - i ==> (#[trigger] nodes@[k])@ == reversed@[n - 1 - k],
            decreases i,
        {
            i -= 1;
            nodes.push(NodeId::new(reversed[i]));
        }
        assert(walk_back(previous@, current, steps as nat) == seq![current]);
        assert(nodes@.map_values(|n: NodeId| n@ as usize) =~= reversed@.reverse());
        assert(reversed@.reverse() =~= seq![current] + reversed@.reverse().drop_first());
        let head = nodes.remove(0);
        let r = NonEmpty::from_head_and_tail(head, nodes);
        assert(r@.map_values(|n: NodeId| n@ as usize) =~= reversed@.reverse());
        r
    }
}


impl AStarPathfinder {
    /// Finds a shortest path; for now the same search as Dijkstra's, so
    /// the same result.
    pub fn find_path(graph: &RoutingGraph, start: NodeId, goal: NodeId) -> (r: Option<GraphPath>)
        requires
            graph.wf(),
            costs_fit(graph.adjacency(), start@),
        ensures
            start == goal ==> (r matches Some(p) && p.node_seq() == seq![start@] && p.total_cost == 0),
            start != goal ==> (r is Some <==> exists|ns: Seq<usize>, ws: Seq<u32>| walk_between(graph.adjacency(), ns, ws, start@, goal@)),
            start != goal ==> (r matches Some(p) ==> exists|ws: Seq<u32>|
                #[trigger] walk_between(graph.adjacency(), p.node_seq(), ws, start@, goal@) && cost(ws) == p.total_cost),
            start != goal ==> (r matches Some(p) ==> forall|ns: Seq<usize>, ws: Seq<u32>|
                #[trigger] walk_between(graph.adjacency(), ns, ws, start@, goal@) ==> p.total_cost <= cost(ws)),
    {
        DijkstraPathfinder::find_path(graph, start, goal)
    }
}

/// Whether `ns` with weights `ws` is a walk in `adj`: each step goes from a
/// node along one of its listed edges, of that weight, to the next node.
pub open spec fn is_walk(adj: Seq<Seq<(usize, u32)>>, ns: Seq<usize>, ws: Seq<u32>) -> bool {
    &&& ns.len() == ws.len() + 1
    &&& forall|i: int| 0 <= i < ws.len() ==> #[trigger] walk_step(adj, ns, ws, i)
}

/// Whether the `i`-th step of a walk goes from its node along a listed edge
/// of weight `ws[i]` to the next node.
pub open spec fn walk_step(adj: Seq<Seq<(usize, u32)>>, ns: Seq<usize>, ws: Seq<u32>, i: int) -> bool {
    (ns[i] as int) < adj.len() && adj[ns[i] as int].contains((ns[i + 1], ws[i]))
}

/// Whether (`ns`, `ws`) is a walk from `a` to `b`.
pub open spec fn walk_between(adj: Seq<Seq<(usize, u32)>>, ns: Seq<usize>, ws: Seq<u32>, a: usize, b: usize) -> bool {
    is_walk(adj, ns, ws) && ns[0] == a && ns.last() == b
}

/// The cost of a walk: the sum of its weights.
pub open spec fn cost(ws: Seq<u32>) -> int
    decreases ws.len(),
{
    if ws.len() == 0 {
        0
    } else {
        cost(ws.drop_last()) + ws.last()
    }
}

/// Whether every edge weight, times the number of nodes, is a `u32`: no
/// path cost the search meets can then exceed one.
pub open spec fn weights_bounded(adj: Seq<Seq<(usize, u32)>>) -> bool {
    forall|i: int, k: int| 0 <= i < adj.len() && 0 <= k < adj[i].len() ==> (#[trigger] adj[i][k]).1 * adj.len() <= u32::MAX
}

/// Whether `v` can be reached from `s` along the edges of `adj`.
pub open spec fn reachable(adj: Seq<Seq<(usize, u32)>>, s: usize, v: usize) -> bool {
    exists|ns: Seq<usize>, ws: Seq<u32>| #[trigger] walk_between(adj, ns, ws, s, v)
}

/// Whether some walk from `s` to `v` costs, with the weight of the `k`-th
/// edge of `v` added, at most `u32::MAX`.
pub open spec fn fits_after(adj: Seq<Seq<(usize, u32)>>, s: usize, v: int, k: int) -> bool {
    exists|ns: Seq<usize>, ws: Seq<u32>| #[trigger] walk_between(adj, ns, ws, s, v as usize) && cost(ws) + adj[v][k].1 <= u32::MAX
}

/// Whether the sums the search from `s` forms fit in a `u32`: for each node
/// reachable from `s`, its distance plus the weight of each of its edges.
pub open spec fn costs_fit(adj: Seq<Seq<(usize, u32)>>, s: usize) -> bool {
    forall|v: int, k: int|
        0 <= v < adj.len() && 0 <= k < adj[v].len() && reachable(adj, s, v as usize) ==> #[trigger] fits_after(adj, s, v, k)
}

/// A sequence of more than `n` numbers below `n` repeats one.
proof fn lemma_repeat(ns: Seq<usize>, n: int) -> (r: (int, int))
    requires
        ns.len() > n >= 0,
        forall|i: int| 0 <= i < ns.len() ==> (#[trigger] ns[i] as int) < n,
    ensures
        0 <= r.0 < r.1 < ns.len(),
        ns[r.0] == ns[r.1],
{
    let m = ns.map_values(|x: usize| x as int);
    if m.no_duplicates() {
        m.unique_seq_to_set();
        vstd::set_lib::lemma_int_range(0, n);
        assert(m.to_set().subset_of(vstd::set_lib::set_int_range(0, n))) by {
            assert forall|x: int| #[trigger] m.to_set().contains(x) implies vstd::set_lib::set_int_range(0, n).contains(x) by {
                let i = choose|i: int| 0 <= i < m.len() && m[i] == x;
                assert(ns[i] as int == x);
            }
        }
        vstd::set_lib::lemma_len_subset(m.to_set(), vstd::set_lib::set_int_range(0, n));
        assert(false);
    }
    let (i, j) = choose|i: int, j: int| 0 <= i < m.len() && 0 <= j < m.len() && i != j && m[i] == m[j];
    if i < j {
        (i, j)
    } else {
        (j, i)
    }
}

/// A node of `adj` reachable by a walk is reachable by one of at most as
/// many nodes as `adj` has.
proof fn lemma_short_walk(adj: Seq<Seq<(usize, u32)>>, ns: Seq<usize>, ws: Seq<u32>, a: usize, b: usize) -> (r: (Seq<usize>, Seq<u32>))
    requires
        walk_between(adj, ns, ws, a, b),
        (b as int) < adj.len(),
    ensures
        walk_between(adj, r.0, r.1, a, b),
        r.0.len() <= adj.len(),
    decreases ns.len(),
{
    if ns.len() <= adj.len() {
        (ns, ws)
    } else {
        assert forall|i: int| 0 <= i < ns.len() implies (#[trigger] ns[i] as int) < adj.len() by {
            if i < ws.len() {
                assert(walk_step(adj, ns, ws, i));
            }
        }
        let (i, j) = lemma_repeat(ns, adj.len() as int);
        let ns2 = ns.take(i + 1) + ns.skip(j + 1);
        let ws2 = ws.take(i) + ws.skip(j);
        assert forall|t: int| 0 <= t < ws2.len() implies #[trigger] walk_step(adj, ns2, ws2, t) by {
            if t < i {
                assert(walk_step(adj, ns, ws, t));
                assert(ns2[t] == ns[t] && ns2[t + 1] == ns[t + 1] && ws2[t] == ws[t]);
            } else {
                let o = t + (j - i);
                assert(walk_step(adj, ns, ws, o));
                assert(ns2[t + 1] == ns[o + 1] && ws2[t] == ws[o]);
                if t == i {
                    assert(ns2[t] == ns[i]);
                } else {
                    assert(ns2[t] == ns[o]);
                }
            }
        }
        assert(ns2.last() == ns.last());
        lemma_short_walk(adj, ns2, ws2, a, b)
    }
}

/// A walk whose weights are each at most `w` costs at most `w` per step.
proof fn lemma_cost_at_most(ws: Seq<u32>, w: int)
    requires
        forall|i: int| 0 <= i < ws.len() ==> ws[i] <= w,
        w >= 0,
    ensures
        cost(ws) <= ws.len() * w,
    decreases ws.len(),
{
    if ws.len() > 0 {
        lemma_cost_at_most(ws.drop_last(), w);
        let l = ws.len() as int;
        assert((l - 1) * w + w == l * w) by (nonlinear_arith);
    }
}

/// When every weight times the number of nodes fits in a `u32`, so do the
/// sums of the search.
pub proof fn lemma_bounded_costs_fit(adj: Seq<Seq<(usize, u32)>>, s: usize)
    requires
        weights_bounded(adj),
    ensures
        costs_fit(adj, s),
{
    assert forall|v: int, k: int|
        0 <= v < adj.len() && 0 <= k < adj[v].len() && reachable(adj, s, v as usize) implies #[trigger] fits_after(adj, s, v, k) by {
        let n = adj.len() as int;
        let bound = u32::MAX as int / n;
        let (ns0, ws0) = choose|ns: Seq<usize>, ws: Seq<u32>| #[trigger] walk_between(adj, ns, ws, s, v as usize);
        let (ns, ws) = lemma_short_walk(adj, ns0, ws0, s, v as usize);
        assert forall|i: int| 0 <= i < ws.len() implies ws[i] <= bound by {
            assert(walk_step(adj, ns, ws, i));
            let q = choose|q: int| 0 <= q < adj[ns[i] as int].len() && adj[ns[i] as int][q] == (ns[i + 1], ws[i]);
            assert(adj[ns[i] as int][q].1 * n <= u32::MAX);
            assert(ws[i] <= u32::MAX as int / n) by (nonlinear_arith)
                requires
                    ws[i] * n <= u32::MAX,
                    n > 0,
            ;
        }
        lemma_cost_at_most(ws, bound);
        let w = adj[v][k].1;
        assert(w * n <= u32::MAX);
        assert(w <= bound) by (nonlinear_arith)
            requires
                w * n <= u32::MAX,
                n > 0,
                bound == u32::MAX as int / n,
        ;
        assert((n - 1) * bound + bound <= u32::MAX) by (nonlinear_arith)
            requires
                bound == u32::MAX as int / n,
                n > 0,
        ;
        assert(ws.len() * bound <= (n - 1) * bound) by (nonlinear_arith)
            requires
                ws.len() <= n - 1,
                bound >= 0,
        ;
        assert(walk_between(adj, ns, ws, s, v as usize) && cost(ws) + w <= u32::MAX);
    }
}

/// A walk costs nothing or more.
pub proof fn lemma_cost_nonneg(ws: Seq<u32>)
    ensures
        cost(ws) >= 0,
    decreases ws.len(),
{
    if ws.len() > 0 {
        lemma_cost_nonneg(ws.drop_last());
    }
}

/// A prefix of a walk costs no more than the walk.
proof fn lemma_cost_prefix(ws: Seq<u32>, j: int)
    requires
        0 <= j <= ws.len(),
    ensures
        cost(ws.take(j)) <= cost(ws),
        j < ws.len() ==> cost(ws.take(j + 1)) == cost(ws.take(j)) + ws[j],
    decreases ws.len() - j,
{
    if j < ws.len() {
        lemma_cost_prefix(ws, j + 1);
        assert(ws.take(j + 1).drop_last() =~= ws.take(j));
    } else {
        assert(ws.take(j) =~= ws);
    }
}

/// A walk that starts among the settled nodes and ends outside them steps
/// from a settled node to an unsettled one somewhere.
proof fn lemma_crossing(adj: Seq<Seq<(usize, u32)>>, ns: Seq<usize>, ws: Seq<u32>, settled: Seq<bool>) -> (j: int)
    requires
        is_walk(adj, ns, ws),
        (ns[0] as int) < settled.len() && settled[ns[0] as int],
        !((ns.last() as int) < settled.len() && settled[ns.last() as int]),
    ensures
        0 <= j < ws.len(),
        (ns[j] as int) < settled.len() && settled[ns[j] as int],
        !((ns[j + 1] as int) < settled.len() && settled[ns[j + 1] as int]),
    decreases ns.len(),
{
    if ws.len() == 0 {
        assert(false);
        0
    } else {
        let k = ws.len() - 1;
        if (ns[k] as int) < settled.len() && settled[ns[k] as int] {
            k
        } else {
            let ns2 = ns.drop_last();
            let ws2 = ws.drop_last();
            assert forall|i: int| 0 <= i < ws2.len() implies #[trigger] walk_step(adj, ns2, ws2, i) by {
                assert(walk_step(adj, ns, ws, i));
            }
            lemma_crossing(adj, ns2, ws2, settled)
        }
    }
}

/// The prefix of a walk up to its `j`-th node is a walk.
proof fn lemma_walk_prefix(adj: Seq<Seq<(usize, u32)>>, ns: Seq<usize>, ws: Seq<u32>, j: int)
    requires
        is_walk(adj, ns, ws),
        0 <= j <= ws.len(),
    ensures
        is_walk(adj, ns.take(j + 1), ws.take(j)),
{
    let ns2 = ns.take(j + 1);
    let ws2 = ws.take(j);
    assert forall|i: int| 0 <= i < ws2.len() implies #[trigger] walk_step(adj, ns2, ws2, i) by {
        assert(walk_step(adj, ns, ws, i));
    }
}

/// The path the predecessor links give agrees with the walks the search
/// recorded, when each recorded walk extends its predecessor's.
proof fn lemma_walk_back(
    prev: Seq<Option<usize>>,
    paths: Seq<(Seq<usize>, Seq<u32>)>,
    start: usize,
    v: usize,
    steps: nat,
)
    requires
        (v as int) < prev.len(),
        paths.len() == prev.len(),
        (start as int) < prev.len(),
        prev[start as int] is None,
        paths[start as int].0 == seq![start],
        forall|u: int|
            0 <= u < prev.len() && u != start && paths[u].0.len() > 0 ==> ((#[trigger] prev[u]) matches Some(p) && (p as int)
                < prev.len() && paths[u].0 == paths[p as int].0.push(u as usize) && paths[p as int].0.len() > 0),
        paths[v as int].0.len() > 0,
        paths[v as int].0.len() <= steps + 1,
    ensures
        walk_back(prev, v, steps) == paths[v as int].0,
    decreases steps,
{
    if v == start {
    } else {
        let p = prev[v as int]->0;
        assert(paths[v as int].0.len() >= 2) by {
            assert(paths[p as int].0.len() > 0);
        }
        lemma_walk_back(prev, paths, start, p, (steps - 1) as nat);
    }
}

impl DijkstraPathfinder {
    /// Finds the shortest path between two nodes in the graph: the node
    /// itself when they are the same, else a cheapest walk from `start` to
    /// `goal` when there is one, with its cost.
    pub fn find_path(graph: &RoutingGraph, start: NodeId, goal: NodeId) -> (r: Option<GraphPath>)
        requires
            graph.wf(),
            costs_fit(graph.adjacency(), start@),
        ensures
            start == goal ==> (r matches Some(p) && p.node_seq() == seq![start@] && p.total_cost == 0),
            start != goal ==> (r is Some <==> exists|ns: Seq<usize>, ws: Seq<u32>| walk_between(graph.adjacency(), ns, ws, start@, goal@)),
            start != goal ==> (r matches Some(p) ==> exists|ws: Seq<u32>|
                #[trigger] walk_between(graph.adjacency(), p.node_seq(), ws, start@, goal@) && cost(ws) == p.total_cost),
            start != goal ==> (r matches Some(p) ==> forall|ns: Seq<usize>, ws: Seq<u32>|
                #[trigger] walk_between(graph.adjacency(), ns, ws, start@, goal@) ==> p.total_cost <= cost(ws)),
    {
        let ghost adj = graph.adjacency();
        proof {
            graph.lemma_wf_facts();
        }
        if start == goal {
            let nodes = NonEmpty::singleton(start);
            assert(nodes@.map_values(|n: NodeId| n@) =~= seq![start@]);
            return Some(GraphPath::new(nodes, 0));
        }
        let n = graph.node_count();
        let s = start.value();
        let g = goal.value();
        proof {
            NodeId::lemma_view_injective(start, goal);
        }
        if s >= n {
            proof {
                assert forall|ns: Seq<usize>, ws: Seq<u32>| !walk_between(adj, ns, ws, s, g) by {
                    if walk_between(adj, ns, ws, s, g) {
                        if ws.len() == 0 {
                            assert(ns[0] == ns.last());
                        } else {
                            assert(walk_step(adj, ns, ws, 0));
                        }
                    }
                }
            }
            return None;
        }
        let mut dist: Vec<Option<u32>> = Vec::new();
        let mut prev: Vec<Option<usize>> = Vec::new();
        let mut settled: Vec<bool> = Vec::new();
        for i in 0..n
            invariant
                dist@.len() == i,
                prev@.len() == i,
                settled@.len() == i,
                forall|v: int| 0 <= v < i ==> dist@[v] == (if v == s { Some(0u32) } else { None::<u32> }),
                forall|v: int| 0 <= v < i ==> prev@[v] is None,
                forall|v: int| 0 <= v < i ==> !settled@[v],
        {
            dist.push(if i == s { Some(0) } else { None });
            prev.push(None);
            settled.push(false);
        }
        let ghost mut paths: Seq<(Seq<usize>, Seq<u32>)> = Seq::new(
            n as nat,
            |v: int| if v == s { (seq![s], Seq::<u32>::empty()) } else { (Seq::<usize>::empty(), Seq::<u32>::empty()) },
        );
        let mut count: usize = 0;
        proof {
            assert(is_walk(adj, seq![s], Seq::<u32>::empty()));
            assert(num_settled(settled@) == 0) by {
                lemma_num_settled_none(settled@);
            }
        }
        loop
            invariant
                s == start@,
                g == goal@,
                start != goal,
                n == graph.positions().len(),
                n == adj.len(),
                adj == graph.adjacency(),
                graph.wf(),
                symmetric(adj),
                costs_fit(adj, s),
                0 <= s < n,
                g != s,
                dist@.len() == n,
                prev@.len() == n,
                settled@.len() == n,
                paths.len() == n,
                count == num_settled(settled@),
                count <= n,
                dist@[s as int] == Some(0u32),
                prev@[s as int] is None,
                paths[s as int] == (seq![s], Seq::<u32>::empty()),
                count == 0 ==> forall|v: int| 0 <= v < n && v != s ==> dist@[v] is None,
                count > 0 ==> settled@[s as int],
                !((g as int) < n && settled@[g as int]),
                forall|v: int| 0 <= v < n ==> (#[trigger] dist@[v] is Some <==> paths[v].0.len() > 0),
                forall|v: int|
                    0 <= v < n && #[trigger] dist@[v] is Some ==> {
                        &&& walk_between(adj, paths[v].0, paths[v].1, s, v as usize)
                        &&& cost(paths[v].1) == dist@[v]->0
                        &&& paths[v].0.len() <= count + 1
                    },
                forall|u: int|
                    0 <= u < n && u != s && paths[u].0.len() > 0 ==> ((#[trigger] prev@[u]) matches Some(p) && (p as int) < n
                        && settled@[p as int] && paths[u].0 == paths[p as int].0.push(u as usize) && paths[p as int].0.len() > 0),
                forall|v: int| 0 <= v < n && #[trigger] settled@[v] ==> dist@[v] is Some,
                forall|v: int, ns: Seq<usize>, ws: Seq<u32>|
                    0 <= v < n && #[trigger] settled@[v] && #[trigger] walk_between(adj, ns, ws, s, v as usize) ==> dist@[v]->0
                        <= cost(ws),
                forall|u: int, v: int|
                    0 <= u < n && 0 <= v < n && #[trigger] settled@[u] && !#[trigger] settled@[v] && dist@[v] is Some
                        ==> dist@[u]->0 <= dist@[v]->0,
                forall|u: int, k: int|
                    0 <= u < n && #[trigger] settled@[u] && 0 <= k < adj[u].len() ==> dist@[#[trigger] adj[u][k].0 as int] is Some
                        && dist@[adj[u][k].0 as int]->0 <= dist@[u]->0 + adj[u][k].1,
            decreases n - count,
        {
            let mut best: Option<usize> = None;
            for i in 0..n
                invariant
                    n == dist@.len(),
                    settled@.len() == n,
                    match best {
                        None => forall|j: int| 0 <= j < i ==> settled@[j] || dist@[j] is None,
                        Some(b) => {
                            &&& b < i
                            &&& !settled@[b as int]
                            &&& dist@[b as int] is Some
                            &&& forall|j: int| 0 <= j < i && !settled@[j] && dist@[j] is Some ==> dist@[b as int]->0 <= dist@[j]->0
                        },
                    },
            {
                if !settled[i] {
                    if let Some(c) = dist[i] {
                        match best {
                            None => {
                                best = Some(i);
                            },
                            Some(b) => {
                                if let Some(cb) = dist[b] {
                                    if c <= cb {
                                        best = Some(i);
                                    }
                                }
                            },
                        }
                    }
                }
            }
            let x = match best {
                None => {
                    proof {
                        lemma_unreachable(adj, settled@, dist@, s, g);
                    }
                    return None;
                },
                Some(x) => x,
            };
            let cx = match dist[x] {
                Some(c) => c,
                None => {
                    return None;
                },
            };
            proof {
                if count > 0 {
                    assert forall|ns: Seq<usize>, ws: Seq<u32>| #[trigger] walk_between(adj, ns, ws, s, x as usize) implies cx <= cost(ws) by {
                        let j = lemma_crossing(adj, ns, ws, settled@);
                        lemma_walk_prefix(adj, ns, ws, j);
                        lemma_cost_prefix(ws, j);
                        lemma_cost_prefix(ws, j + 1);
                        let u = ns[j] as int;
                        assert(ns.take(j + 1).last() == ns[j]);
                        assert(walk_between(adj, ns.take(j + 1), ws.take(j), s, ns[j]));
                        assert(walk_step(adj, ns, ws, j));
                        let q = choose|q: int| 0 <= q < adj[u].len() && adj[u][q] == (ns[j + 1], ws[j]);
                        assert(settled@[u]);
                        assert(dist@[adj[u][q].0 as int] is Some);
                    }
                } else {
                    assert(x == s);
                    assert forall|ns: Seq<usize>, ws: Seq<u32>| #[trigger] walk_between(adj, ns, ws, s, x as usize) implies cx <= cost(ws) by {
                        lemma_cost_prefix(ws, 0);
                        assert(ws.take(0) =~= Seq::<u32>::empty());
                    }
                }
                lemma_num_settled_set(settled@, x as int);
                assert forall|u: int| 0 <= u < n && #[trigger] settled@[u] implies dist@[u]->0 <= cx by {
                    assert(dist@[x as int] is Some);
                }
            }
            settled.set(x, true);
            count = count + 1;
            if x == g {
                let path = Self::reconstruct_path(&prev, goal);
                proof {
                    lemma_walk_back(prev@, paths, s, g, n as nat);
                    assert(path@.map_values(|v: NodeId| v@ as usize) =~= path@.map_values(|v: NodeId| v@));
                    assert(walk_between(adj, path@.map_values(|v: NodeId| v@), paths[g as int].1, s, g));
                }
                let found = GraphPath::new(path, cx);
                assert(walk_between(adj, found.node_seq(), paths[g as int].1, s, g));
                assert(cost(paths[g as int].1) == found.total_cost);
                assert(forall|ns: Seq<usize>, ws: Seq<u32>| #[trigger] walk_between(adj, ns, ws, s, g) ==> found.total_cost <= cost(ws));
                assert(forall|ns: Seq<usize>, ws: Seq<u32>| #[trigger] walk_between(graph.adjacency(), ns, ws, start@, goal@) ==> found.total_cost <= cost(ws));
                let r = Some(found);
                assert(r is Some);
                assert(r->0 == found);
                assert(r->0.node_seq() == found.node_seq());
                assert(r matches Some(p) ==> exists|ws: Seq<u32>| #[trigger] walk_between(graph.adjacency(), p.node_seq(), ws, start@, goal@)
                    && cost(ws) == p.total_cost) by {
                    assert(walk_between(graph.adjacency(), found.node_seq(), paths[g as int].1, start@, goal@));
                }
                return r;
            }
            let edges = match graph.get_edges(NodeId::new(x)) {
                Some(e) => e,
                None => {
                    return None;
                },
            };
            let ne = edges.len();
            let ghost before_dist = dist@;
            for k in 0..ne
                invariant
                    s == start@,
                    g == goal@,
                    start != goal,
                    n == graph.positions().len(),
                    graph.wf(),
                    forall|u: int| 0 <= u < n && #[trigger] settled@[u] ==> dist@[u]->0 <= cx,
                    0 <= x < n,
                    ne == edges@.len(),
                    edges@.map_values(|e: RoutingEdge| edge_view(e)) == adj[x as int],
                    n == adj.len(),
                    adj == graph.adjacency(),
                    symmetric(adj),
                    costs_fit(adj, s),
                    0 <= s < n,
                    g != s,
                    x != g,
                    dist@.len() == n,
                    prev@.len() == n,
                    settled@.len() == n,
                    paths.len() == n,
                    count == num_settled(settled@),
                    1 <= count <= n,
                    settled@[x as int],
                    dist@[x as int] == Some(cx),
                    paths[x as int].0.len() <= count,
                    dist@[s as int] == Some(0u32),
                    prev@[s as int] is None,
                    paths[s as int] == (seq![s], Seq::<u32>::empty()),
                    settled@[s as int],
                    !((g as int) < n && settled@[g as int]),
                    forall|v: int| 0 <= v < n ==> (#[trigger] dist@[v] is Some <==> paths[v].0.len() > 0),
                    forall|v: int|
                        0 <= v < n && #[trigger] dist@[v] is Some ==> {
                            &&& walk_between(adj, paths[v].0, paths[v].1, s, v as usize)
                            &&& cost(paths[v].1) == dist@[v]->0
                            &&& paths[v].0.len() <= count + 1
                        },
                    forall|u: int|
                        0 <= u < n && u != s && paths[u].0.len() > 0 ==> ((#[trigger] prev@[u]) matches Some(p) && (p as int) < n
                            && settled@[p as int] && paths[u].0 == paths[p as int].0.push(u as usize) && paths[p as int].0.len() > 0),
                    forall|v: int| 0 <= v < n && #[trigger] settled@[v] ==> dist@[v] is Some,
                    forall|v: int, ns: Seq<usize>, ws: Seq<u32>|
                        0 <= v < n && #[trigger] settled@[v] && #[trigger] walk_between(adj, ns, ws, s, v as usize) ==> dist@[v]->0
                            <= cost(ws),
                    forall|u: int, v: int|
                        0 <= u < n && 0 <= v < n && #[trigger] settled@[u] && !#[trigger] settled@[v] && dist@[v] is Some
                            ==> dist@[u]->0 <= dist@[v]->0,
                    forall|u: int, q: int|
                        0 <= u < n && u != x && #[trigger] settled@[u] && 0 <= q < adj[u].len() ==> dist@[#[trigger] adj[u][q].0 as int] is Some
                            && dist@[adj[u][q].0 as int]->0 <= dist@[u]->0 + adj[u][q].1,
                    forall|q: int| 0 <= q < k ==> dist@[#[trigger] adj[x as int][q].0 as int] is Some
                        && dist@[adj[x as int][q].0 as int]->0 <= cx + adj[x as int][q].1,
            {
                let edge = &edges[k];
                let y = edge.destination.value();
                let w = edge.weight;
                assert(adj[x as int][k as int] == (y, w));
                assert(adj[x as int][k as int].0 < adj.len());
                assert(y < n);
                proof {
                    assert(walk_between(adj, paths[x as int].0, paths[x as int].1, s, x));
                    assert(reachable(adj, s, x));
                    assert(fits_after(adj, s, x as int, k as int));
                    let (ns, ws) = choose|ns: Seq<usize>, ws: Seq<u32>| #[trigger] walk_between(adj, ns, ws, s, x) && cost(ws)
                        + adj[x as int][k as int].1 <= u32::MAX;
                    assert(dist@[x as int]->0 <= cost(ws));
                }
                let new_cost = cx + w;
                let better = match dist[y] {
                    None => true,
                    Some(c) => new_cost < c,
                };
                if better {
                    proof {
                        assert(!settled@[y as int]) by {
                            if settled@[y as int] {
                                assert(dist@[y as int]->0 <= cx);
                            }
                        }
                        assert(adj[x as int].contains((y, w)));
                        let np = paths[x as int].0.push(y);
                        let nw = paths[x as int].1.push(w);
                        assert forall|i: int| 0 <= i < nw.len() implies #[trigger] walk_step(adj, np, nw, i) by {
                            if i < nw.len() - 1 {
                                assert(walk_step(adj, paths[x as int].0, paths[x as int].1, i));
                            }
                        }
                        assert(nw.drop_last() =~= paths[x as int].1);
                        paths = paths.update(y as int, (np, nw));
                    }
                    dist.set(y, Some(new_cost));
                    prev.set(y, Some(x));
                }
            }
            proof {
                assert forall|q: int| 0 <= q < adj[x as int].len() implies dist@[#[trigger] adj[x as int][q].0 as int] is Some
                    && dist@[adj[x as int][q].0 as int]->0 <= dist@[x as int]->0 + adj[x as int][q].1 by {}
            }
        }
    }
}

/// How many nodes are settled.
pub open spec fn num_settled(v: Seq<bool>) -> nat
    decreases v.len(),
{
    if v.len() == 0 {
        0
    } else {
        num_settled(v.drop_last()) + if v.last() { 1nat } else { 0nat }
    }
}

/// No node settled: none counted.
pub proof fn lemma_num_settled_none(v: Seq<bool>)
    requires
        forall|i: int| 0 <= i < v.len() ==> !v[i],
    ensures
        num_settled(v) == 0,
    decreases v.len(),
{
    if v.len() > 0 {
        lemma_num_settled_none(v.drop_last());
    }
}

/// Settling an unsettled node counts one more, and fewer than all were
/// settled before.
pub proof fn lemma_num_settled_set(v: Seq<bool>, x: int)
    requires
        0 <= x < v.len(),
        !v[x],
    ensures
        num_settled(v.update(x, true)) == num_settled(v) + 1,
        num_settled(v) < v.len(),
    decreases v.len(),
{
    lemma_num_settled_le(v.drop_last());
    if x == v.len() - 1 {
        assert(v.update(x, true).drop_last() =~= v.drop_last());
    } else {
        lemma_num_settled_set(v.drop_last(), x);
        assert(v.update(x, true).drop_last() =~= v.drop_last().update(x, true));
    }
}

/// At most all nodes are settled.
pub proof fn lemma_num_settled_le(v: Seq<bool>)
    ensures
        num_settled(v) <= v.len(),
    decreases v.len(),
{
    if v.len() > 0 {
        lemma_num_settled_le(v.drop_last());
    }
}

/// When every node with a known distance is settled and the goal is not,
/// no walk reaches the goal.
proof fn lemma_unreachable(adj: Seq<Seq<(usize, u32)>>, settled: Seq<bool>, dist: Seq<Option<u32>>, s: usize, g: usize)
    requires
        settled.len() == adj.len(),
        dist.len() == adj.len(),
        symmetric(adj),
        (s as int) < adj.len(),
        s != g,
        dist[s as int] is Some,
        forall|j: int| 0 <= j < adj.len() ==> settled[j] || dist[j] is None,
        !((g as int) < adj.len() && settled[g as int]),
        forall|u: int, k: int|
            0 <= u < adj.len() && #[trigger] settled[u] && 0 <= k < adj[u].len() ==> dist[#[trigger] adj[u][k].0 as int] is Some,
    ensures
        !exists|ns: Seq<usize>, ws: Seq<u32>| walk_between(adj, ns, ws, s, g),
{
    assert forall|ns: Seq<usize>, ws: Seq<u32>| !walk_between(adj, ns, ws, s, g) by {
        if walk_between(adj, ns, ws, s, g) {
            assert(settled[s as int]);
            let j = lemma_crossing(adj, ns, ws, settled);
            let u = ns[j] as int;
            assert(walk_step(adj, ns, ws, j));
            let q = choose|q: int| 0 <= q < adj[u].len() && adj[u][q] == (ns[j + 1], ws[j]);
            assert(dist[adj[u][q].0 as int] is Some);
        }
    }
}


/// All settled exactly when as many are settled as there are; otherwise
/// one is not.
pub proof fn lemma_num_settled_all(v: Seq<bool>)
    ensures
        num_settled(v) == v.len() ==> forall|i: int| 0 <= i < v.len() ==> v[i],
        num_settled(v) < v.len() ==> exists|i: int| 0 <= i < v.len() && !v[i],
    decreases v.len(),
{
    if v.len() > 0 {
        lemma_num_settled_all(v.drop_last());
        lemma_num_settled_le(v.drop_last());
        if num_settled(v) == v.len() {
            assert forall|i: int| 0 <= i < v.len() implies v[i] by {
                if i < v.len() - 1 {
                    assert(v.drop_last()[i] == v[i]);
                }
            }
        }
        if num_settled(v) < v.len() {
            if v.last() {
                let i = choose|i: int| 0 <= i < v.drop_last().len() && !v.drop_last()[i];
                assert(v[i] == v.drop_last()[i]);
            } else {
                assert(!v[v.len() - 1]);
            }
        }
    }
}

} // verus!
