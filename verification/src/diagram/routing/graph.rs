//! Identifiers and edges of the routing graph, and the crossing of two
//! axis-parallel segments.

use super::Point;
use vstd::prelude::*;

verus! {

/// A node of the routing graph.
#[derive(Debug, Clone, PartialEq, Eq, Structural)]
pub struct RoutingNode {
    /// Its identifier.
    pub id: NodeId,
    /// Where it is.
    pub position: Point,
}

impl RoutingNode {
    /// Creates a node.
    pub fn new(id: NodeId, position: Point) -> (r: Self)
        ensures
            r == (RoutingNode { id, position }),
    {
        RoutingNode { id, position }
    }
}

/// Identifier of a node.
#[derive(Debug, Clone, Copy, PartialEq, Eq, Structural, Hash)]
pub struct NodeId(usize);

impl View for NodeId {
    type V = usize;

    closed spec fn view(&self) -> usize {
        self.0
    }
}

impl NodeId {
    /// Creates an identifier.
    pub fn new(id: usize) -> (r: Self)
        ensures
            r@ == id,
    {
        NodeId(id)
    }

    /// The identifier numbered `n`.
    pub closed spec fn numbered(n: usize) -> NodeId {
        NodeId(n)
    }

    /// The identifier numbered `n` has number `n`.
    pub proof fn lemma_numbered(n: usize)
        ensures
            Self::numbered(n)@ == n,
    {
    }

    /// Two identifiers are the same exactly when their numbers are.
    pub proof fn lemma_view_injective(a: NodeId, b: NodeId)
        ensures
            a == b <==> a@ == b@,
    {
    }

    /// The identifier's number.
    pub fn value(&self) -> (r: usize)
        ensures
            r == self@,
    {
        self.0
    }
}

/// A weighted, directed edge.
#[derive(Debug, Clone, PartialEq, Eq, Structural)]
pub struct RoutingEdge {
    /// Where it starts.
    pub source: NodeId,
    /// Where it ends.
    pub destination: NodeId,
    /// Its cost.
    pub weight: u32,
}

impl RoutingEdge {
    /// Creates an edge.
    pub fn new(source: NodeId, destination: NodeId, weight: u32) -> (r: Self)
        ensures
            r == (RoutingEdge { source, destination, weight }),
    {
        RoutingEdge { source, destination, weight }
    }
}

/// Errors of graph operations.
#[derive(Debug, Clone, Copy, PartialEq, Eq, Structural)]
pub enum GraphError {
    /// No node has this identifier.
    NodeNotFound(NodeId),
}

/// Where two lead lines cross.
#[derive(Debug, PartialEq, Eq)]
pub struct Intersection {
    /// The crossing point.
    pub position: Point,
    /// Indices of the two lines.
    pub lead_line_ids: (usize, usize),
}

impl Intersection {
    /// Creates an intersection.
    pub fn new(position: Point, line1_id: usize, line2_id: usize) -> (r: Self)
        ensures
            r == (Intersection { position, lead_line_ids: (line1_id, line2_id) }),
    {
        Intersection { position, lead_line_ids: (line1_id, line2_id) }
    }
}

/// The Manhattan distance between two points.
pub fn manhattan_distance(a: Point, b: Point) -> (r: u32)
    requires
        super::manhattan(a, b) <= u32::MAX,
    ensures
        r == super::manhattan(a, b),
{
    let dx = if a.x >= b.x { a.x - b.x } else { b.x - a.x };
    let dy = if a.y >= b.y { a.y - b.y } else { b.y - a.y };
    dx + dy
}


/// Whether `point` lies on the axis-parallel segment from `start` to
/// `end`: inside its bounding box and on its line; a slanted segment has
/// no points.
pub open spec fn on_segment(point: Point, start: Point, end: Point) -> bool {
    let min_x = if start.x <= end.x { start.x } else { end.x };
    let max_x = if start.x >= end.x { start.x } else { end.x };
    let min_y = if start.y <= end.y { start.y } else { end.y };
    let max_y = if start.y >= end.y { start.y } else { end.y };
    &&& min_x <= point.x <= max_x
    &&& min_y <= point.y <= max_y
    &&& if start.x == end.x {
        point.x == start.x
    } else if start.y == end.y {
        point.y == start.y
    } else {
        false
    }
}

/// Checks if a point lies on a line segment.
pub fn point_on_line(point: Point, line_start: Point, line_end: Point) -> (r: bool)
    ensures
        r == on_segment(point, line_start, line_end),
{
    let min_x = if line_start.x <= line_end.x { line_start.x } else { line_end.x };
    let max_x = if line_start.x >= line_end.x { line_start.x } else { line_end.x };
    let min_y = if line_start.y <= line_end.y { line_start.y } else { line_end.y };
    let max_y = if line_start.y >= line_end.y { line_start.y } else { line_end.y };
    if point.x < min_x || point.x > max_x || point.y < min_y || point.y > max_y {
        return false;
    }
    if line_start.x == line_end.x {
        point.x == line_start.x
    } else if line_start.y == line_end.y {
        point.y == line_start.y
    } else {
        false
    }
}

/// An edge as the specifications see it: where it goes and its weight.
pub open spec fn edge_view(e: RoutingEdge) -> (usize, u32) {
    (e.destination@, e.weight)
}

/// Whether every edge's reverse, with the same weight, is listed under the
/// node it reaches.
pub open spec fn symmetric(adj: Seq<Seq<(usize, u32)>>) -> bool {
    forall|i: int, k: int|
        0 <= i < adj.len() && 0 <= k < adj[i].len() ==> #[trigger] adj[i][k].0 < adj.len() && adj[adj[i][k].0 as int].contains(
            (i as usize, adj[i][k].1),
        )
}

/// The edges of `adj` after adding the edge from `s` to `d` of weight `w`
/// and its reverse.
pub open spec fn with_edge(adj: Seq<Seq<(usize, u32)>>, s: int, d: int, w: u32) -> Seq<Seq<(usize, u32)>> {
    let once = adj.update(s, adj[s].push((d as usize, w)));
    once.update(d, once[d].push((s as usize, w)))
}

/// Adding an edge and its reverse keeps every edge's reverse.
pub proof fn lemma_with_edge_symmetric(adj: Seq<Seq<(usize, u32)>>, s: int, d: int, w: u32)
    requires
        symmetric(adj),
        0 <= s < adj.len(),
        0 <= d < adj.len(),
        adj.len() <= usize::MAX,
    ensures
        symmetric(with_edge(adj, s, d, w)),
{
    let n = with_edge(adj, s, d, w);
    assert forall|x: int, k: int| 0 <= x < adj.len() && 0 <= k < adj[x].len() implies #[trigger] n[x][k] == adj[x][k] by {}
    assert forall|i: int, k: int| 0 <= i < n.len() && 0 <= k < n[i].len() implies #[trigger] n[i][k].0 < n.len()
        && n[n[i][k].0 as int].contains((i as usize, n[i][k].1)) by {
        if k < adj[i].len() {
            let j = adj[i][k].0 as int;
            let m = choose|m: int| 0 <= m < adj[j].len() && adj[j][m] == (i as usize, adj[i][k].1);
            assert(n[j][m] == adj[j][m]);
        } else if s != d {
            if i == s {
                assert(n[d][adj[d].len() as int] == (s as usize, w));
            } else {
                assert(n[s][adj[s].len() as int] == (d as usize, w));
            }
        } else {
            assert(n[s][adj[s].len() as int + 1] == (s as usize, w));
        }
    }
}

/// The routing graph used for pathfinding: nodes at distinct positions,
/// numbered from 0 in the order they were added, and for each node the
/// edges leaving it.
#[derive(Debug, Clone)]
pub struct RoutingGraph {
    nodes: Vec<RoutingNode>,
    edges: Vec<Vec<RoutingEdge>>,
}

impl RoutingGraph {
    /// The positions of the nodes, by number.
    pub closed spec fn positions(&self) -> Seq<Point> {
        self.nodes@.map_values(|n: RoutingNode| n.position)
    }

    /// The edges leaving each node, by node number, in the order they were
    /// added.
    pub closed spec fn adjacency(&self) -> Seq<Seq<(usize, u32)>> {
        self.edges@.map_values(|v: Vec<RoutingEdge>| v@.map_values(|e: RoutingEdge| edge_view(e)))
    }

    /// The graph is well formed: each node knows its number, no two nodes
    /// share a position, every edge leaves the node it is listed under and
    /// reaches a node of the graph with its reverse listed there.
    pub closed spec fn wf(&self) -> bool {
        &&& self.nodes@.len() == self.edges@.len()
        &&& forall|i: int| 0 <= i < self.nodes@.len() ==> (#[trigger] self.nodes@[i]).id@ == i
        &&& forall|i: int, j: int| 0 <= i < j < self.nodes@.len() ==> self.nodes@[i].position != self.nodes@[j].position
        &&& forall|i: int, k: int|
            0 <= i < self.edges@.len() && 0 <= k < self.edges@[i]@.len() ==> (#[trigger] self.edges@[i]@[k]).source@ == i
        &&& symmetric(self.adjacency())
    }

    /// A well-formed graph has one list of edges per node, no two nodes at
    /// one position, and every edge's reverse.
    pub proof fn lemma_wf_facts(&self)
        requires
            self.wf(),
        ensures
            self.adjacency().len() == self.positions().len(),
            forall|i: int, j: int| 0 <= i < j < self.positions().len() ==> self.positions()[i] != self.positions()[j],
            symmetric(self.adjacency()),
    {
    }

    /// Creates a new empty routing graph.
    pub fn new() -> (r: Self)
        ensures
            r.wf(),
            r.positions() == Seq::<Point>::empty(),
            r.adjacency() == Seq::<Seq<(usize, u32)>>::empty(),
    {
        let r = RoutingGraph { nodes: Vec::new(), edges: Vec::new() };
        assert(r.positions() =~= Seq::<Point>::empty());
        assert(r.adjacency() =~= Seq::<Seq<(usize, u32)>>::empty());
        r
    }

    /// The number of the node at `position`, if there is one.
    fn index_at(&self, position: Point) -> (r: Option<usize>)
        requires
            self.wf(),
        ensures
            match r {
                Some(i) => i < self.positions().len() && self.positions()[i as int] == position,
                None => !self.positions().contains(position),
            },
    {
        let n = self.nodes.len();
        for i in 0..n
            invariant
                n == self.nodes@.len(),
                forall|k: int| 0 <= k < i ==> self.nodes@[k].position != position,
        {
            if self.nodes[i].position == position {
                return Some(i);
            }
        }
        assert(!self.positions().contains(position)) by {
            if self.positions().contains(position) {
                let k = choose|k: int| 0 <= k < self.positions().len() && self.positions()[k] == position;
                assert(self.nodes@[k].position == position);
            }
        }
        None
    }

    /// Adds a node at `position`, returning its number; a position that
    /// already has a node keeps it and returns its number.
    pub fn add_node(&mut self, position: Point) -> (r: NodeId)
        requires
            old(self).wf(),
            old(self).positions().len() < usize::MAX,
        ensures
            final(self).wf(),
            old(self).positions().contains(position) ==> {
                &&& r@ < old(self).positions().len()
                &&& old(self).positions()[r@ as int] == position
                &&& final(self).positions() == old(self).positions()
                &&& final(self).adjacency() == old(self).adjacency()
            },
            !old(self).positions().contains(position) ==> {
                &&& r@ == old(self).positions().len()
                &&& final(self).positions() == old(self).positions().push(position)
                &&& final(self).adjacency() == old(self).adjacency().push(Seq::empty())
            },
    {
        if let Some(i) = self.index_at(position) {
            return NodeId::new(i);
        }
        let id = NodeId::new(self.nodes.len());
        let ghost old_adj = self.adjacency();
        let ghost old_pos = self.positions();
        self.nodes.push(RoutingNode::new(id, position));
        self.edges.push(Vec::new());
        assert(self.positions() =~= old_pos.push(position));
        assert(self.adjacency()[old_adj.len() as int] =~= Seq::<(usize, u32)>::empty());
        assert(self.adjacency() =~= old_adj.push(Seq::empty()));
        proof {
            let adj = self.adjacency();
            assert forall|i: int, k: int| 0 <= i < adj.len() && 0 <= k < adj[i].len() implies #[trigger] adj[i][k].0 < adj.len()
                && adj[adj[i][k].0 as int].contains((i as usize, adj[i][k].1)) by {
                assert(adj[i] == old_adj[i]);
                let d = adj[i][k].0 as int;
                assert(adj[d] == old_adj[d]);
            }
            assert forall|a: int, b: int| 0 <= a < b < self.nodes@.len() implies self.nodes@[a].position != self.nodes@[b].position by {
                if b == self.nodes@.len() - 1 {
                    assert(old_pos[a] == self.nodes@[a].position);
                }
            }
        }
        id
    }

    /// Adds an edge between two nodes, weighted by the Manhattan distance
    /// of their positions, in both directions.
    pub fn add_edge(&mut self, source: NodeId, destination: NodeId) -> (r: Result<(), GraphError>)
        requires
            old(self).wf(),
            source@ < old(self).positions().len() && destination@ < old(self).positions().len() ==> super::manhattan(
                old(self).positions()[source@ as int],
                old(self).positions()[destination@ as int],
            ) <= u32::MAX,
        ensures
            final(self).wf(),
            final(self).positions() == old(self).positions(),
            source@ >= old(self).positions().len() ==> r == Err::<(), GraphError>(GraphError::NodeNotFound(source))
                && final(self).adjacency() == old(self).adjacency(),
            source@ < old(self).positions().len() && destination@ >= old(self).positions().len() ==> r == Err::<
                (),
                GraphError,
            >(GraphError::NodeNotFound(destination)) && final(self).adjacency() == old(self).adjacency(),
            source@ < old(self).positions().len() && destination@ < old(self).positions().len() ==> r is Ok
                && final(self).adjacency() == with_edge(
                old(self).adjacency(),
                source@ as int,
                destination@ as int,
                super::manhattan(old(self).positions()[source@ as int], old(self).positions()[destination@ as int]) as u32,
            ),
    {
        let n = self.nodes.len();
        let s = source.value();
        let d = destination.value();
        if s >= n {
            return Err(GraphError::NodeNotFound(source));
        }
        if d >= n {
            return Err(GraphError::NodeNotFound(destination));
        }
        let ghost old_adj = self.adjacency();
        let ghost old_edges = self.edges@;
        let weight = manhattan_distance(self.nodes[s].position, self.nodes[d].position);
        let mut forward = self.edges.remove(s);
        forward.push(RoutingEdge::new(source, destination, weight));
        self.edges.insert(s, forward);
        let ghost mid_edges = self.edges@;
        assert(mid_edges =~= old_edges.update(s as int, mid_edges[s as int]));
        let mut backward = self.edges.remove(d);
        backward.push(RoutingEdge::new(destination, source, weight));
        self.edges.insert(d, backward);
        assert(self.edges@ =~= mid_edges.update(d as int, self.edges@[d as int]));
        proof {
            let adj = self.adjacency();
            let target = with_edge(old_adj, s as int, d as int, weight);
            assert forall|i: int| 0 <= i < adj.len() implies adj[i] =~= target[i] by {}
            assert(adj =~= target);
            lemma_with_edge_symmetric(old_adj, s as int, d as int, weight);
        }
        Ok(())
    }

    /// Gets a node by its number.
    pub fn get_node(&self, id: NodeId) -> (r: Option<&RoutingNode>)
        requires
            self.wf(),
        ensures
            match r {
                Some(node) => id@ < self.positions().len() && node.id == id && node.position == self.positions()[id@ as int],
                None => id@ >= self.positions().len(),
            },
    {
        if id.value() < self.nodes.len() {
            Some(&self.nodes[id.value()])
        } else {
            None
        }
    }

    /// Gets the node at `position`.
    pub fn get_node_at(&self, position: Point) -> (r: Option<&RoutingNode>)
        requires
            self.wf(),
        ensures
            match r {
                Some(node) => node.id@ < self.positions().len() && self.positions()[node.id@ as int] == position
                    && node.position == position,
                None => !self.positions().contains(position),
            },
    {
        match self.index_at(position) {
            Some(i) => Some(&self.nodes[i]),
            None => None,
        }
    }

    /// Gets all edges from a node.
    pub fn get_edges(&self, node: NodeId) -> (r: Option<&[RoutingEdge]>)
        requires
            self.wf(),
        ensures
            match r {
                Some(edges) => node@ < self.positions().len() && edges@.map_values(|e: RoutingEdge| edge_view(e))
                    == self.adjacency()[node@ as int] && forall|k: int| 0 <= k < edges@.len() ==> (#[trigger] edges@[k]).source
                    == node,
                None => node@ >= self.positions().len(),
            },
    {
        if node.value() < self.edges.len() {
            let edges = self.edges[node.value()].as_slice();
            assert(self.adjacency()[node@ as int] == self.edges@[node@ as int]@.map_values(|e: RoutingEdge| edge_view(e)));
            assert forall|k: int| 0 <= k < edges@.len() implies (#[trigger] edges@[k]).source == node by {
                assert(self.edges@[node@ as int]@[k].source@ == node@);
            }
            Some(edges)
        } else {
            None
        }
    }

    /// Gets the total number of nodes.
    pub fn node_count(&self) -> (r: usize)
        requires
            self.wf(),
        ensures
            r == self.positions().len(),
    {
        self.nodes.len()
    }

    /// The number of edges, each counted once: half the listed ones.
    pub open spec fn listed_edges(adj: Seq<Seq<(usize, u32)>>) -> int
        decreases adj.len(),
    {
        if adj.len() == 0 {
            0
        } else {
            Self::listed_edges(adj.drop_last()) + adj.last().len()
        }
    }

    /// Gets the total number of edges (counting both directions once).
    pub fn edge_count(&self) -> (r: usize)
        requires
            self.wf(),
            Self::listed_edges(self.adjacency()) <= usize::MAX,
        ensures
            r == Self::listed_edges(self.adjacency()) / 2,
    {
        let ghost adj = self.adjacency();
        let mut total: usize = 0;
        let n = self.edges.len();
        proof {
            lemma_listed_prefix(adj);
        }
        for i in 0..n
            invariant
                n == adj.len(),
                adj == self.adjacency(),
                Self::listed_edges(adj) <= usize::MAX,
                forall|k: int| 0 <= k <= adj.len() ==> Self::listed_edges(#[trigger] adj.take(k)) <= Self::listed_edges(adj),
                total == Self::listed_edges(adj.take(i as int)),
        {
            assert(adj.take(i + 1).drop_last() =~= adj.take(i as int));
            assert(adj[i as int].len() == self.edges@[i as int]@.len());
            total = total + self.edges[i].len();
        }
        assert(adj.take(n as int) =~= adj);
        total / 2
    }

    /// Clears the graph.
    pub fn clear(&mut self)
        ensures
            final(self).wf(),
            final(self).positions() == Seq::<Point>::empty(),
            final(self).adjacency() == Seq::<Seq<(usize, u32)>>::empty(),
    {
        *self = RoutingGraph::new();
    }
}

/// Prefixes list no more edges than the whole.
proof fn lemma_listed_prefix(adj: Seq<Seq<(usize, u32)>>)
    ensures
        forall|k: int| 0 <= k <= adj.len() ==> RoutingGraph::listed_edges(#[trigger] adj.take(k)) <= RoutingGraph::listed_edges(adj),
    decreases adj.len(),
{
    if adj.len() > 0 {
        lemma_listed_prefix(adj.drop_last());
        assert forall|k: int| 0 <= k <= adj.len() implies RoutingGraph::listed_edges(#[trigger] adj.take(k)) <= RoutingGraph::listed_edges(adj) by {
            if k < adj.len() {
                assert(adj.take(k) =~= adj.drop_last().take(k));
            } else {
                assert(adj.take(k) =~= adj);
            }
        }
    }
}

impl Default for RoutingGraph {
    fn default() -> (r: Self)
        ensures
            r.wf(),
            r.positions() == Seq::<Point>::empty(),
            r.adjacency() == Seq::<Seq<(usize, u32)>>::empty(),
    {
        RoutingGraph::new()
    }
}

} // verus!
