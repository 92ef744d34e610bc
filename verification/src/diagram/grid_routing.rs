//! A grid-based routing graph: lead lines that leave entities straight,
//! their crossings, and a graph of routing points.

use std::collections::HashMap;
use vstd::prelude::*;

pub use super::routing::{Direction, Point, RoutePath, Rectangle};

pub mod algorithm;

verus! {

broadcast use vstd::std_specs::hash::group_hash_axioms;

/// A straight line leaving an entity in one direction.
#[derive(Debug, Clone, PartialEq, Eq, Structural)]
pub struct LeadLine {
    /// Where the line starts.
    pub start: Point,
    /// The direction it goes.
    pub direction: Direction,
    /// Where the line ends.
    pub end: Point,
}

/// Whether `p` lies on the line (between its ends, along its direction).
pub open spec fn on_line(l: LeadLine, p: Point) -> bool {
    match l.direction {
        Direction::North => p.x == l.start.x && p.y >= l.end.y && p.y <= l.start.y,
        Direction::South => p.x == l.start.x && p.y >= l.start.y && p.y <= l.end.y,
        Direction::East => p.y == l.start.y && p.x >= l.start.x && p.x <= l.end.x,
        Direction::West => p.y == l.start.y && p.x >= l.end.x && p.x <= l.start.x,
    }
}

/// Whether a direction is vertical.
pub open spec fn vertical(d: Direction) -> bool {
    d is North || d is South
}

/// Where two lines cross: only a vertical and a horizontal line do, at
/// the vertical line's x and the horizontal line's y, if that point lies
/// on both.
pub open spec fn crossing(a: LeadLine, b: LeadLine) -> Option<Point> {
    if vertical(a.direction) == vertical(b.direction) {
        None
    } else {
        let (v, h) = if vertical(a.direction) { (a, b) } else { (b, a) };
        let p = Point { x: v.start.x, y: h.start.y };
        if on_line(v, p) && on_line(h, p) {
            Some(p)
        } else {
            None
        }
    }
}

impl LeadLine {
    /// Creates a new lead line.
    pub fn new(start: Point, direction: Direction, end: Point) -> (r: Self)
        ensures
            r == (LeadLine { start, direction, end }),
    {
        LeadLine { start, direction, end }
    }

    /// Where this line crosses `other`; parallel lines do not cross.
    pub fn intersection(&self, other: &LeadLine) -> (r: Option<Point>)
        ensures
            r == crossing(*self, *other),
    {
        let self_vertical = match self.direction {
            Direction::North | Direction::South => true,
            Direction::East | Direction::West => false,
        };
        let other_vertical = match other.direction {
            Direction::North | Direction::South => true,
            Direction::East | Direction::West => false,
        };
        if self_vertical == other_vertical {
            None
        } else {
            self.find_intersection_point(other)
        }
    }

    fn find_intersection_point(&self, other: &LeadLine) -> (r: Option<Point>)
        requires
            vertical(self.direction) != vertical(other.direction),
        ensures
            r == crossing(*self, *other),
    {
        let (vertical_line, horizontal_line) = match self.direction {
            Direction::North | Direction::South => (self, other),
            Direction::East | Direction::West => (other, self),
        };
        let intersection = Point::new(vertical_line.start.x, horizontal_line.start.y);
        if vertical_line.contains_point(&intersection) && horizontal_line.contains_point(&intersection) {
            Some(intersection)
        } else {
            None
        }
    }

    pub fn contains_point(&self, point: &Point) -> (r: bool)
        ensures
            r == on_line(*self, *point),
    {
        match self.direction {
            Direction::North => point.x == self.start.x && point.y >= self.end.y && point.y <= self.start.y,
            Direction::South => point.x == self.start.x && point.y >= self.start.y && point.y <= self.end.y,
            Direction::East => point.y == self.start.y && point.x >= self.start.x && point.x <= self.end.x,
            Direction::West => point.y == self.start.y && point.x >= self.end.x && point.x <= self.start.x,
        }
    }
}

/// Crossing does not depend on the order of the two lines.
pub proof fn lemma_crossing_symmetric(a: LeadLine, b: LeadLine)
    ensures
        crossing(a, b) == crossing(b, a),
{
}

/// A node in the routing graph.
#[derive(Debug, Clone, PartialEq, Eq, Structural, Hash)]
pub struct RoutingNode {
    /// Where the node is.
    pub position: Point,
    /// Its identifier.
    pub node_id: usize,
}

impl RoutingNode {
    /// Creates a new routing node.
    pub fn new(position: Point, node_id: usize) -> (r: Self)
        ensures
            r == (RoutingNode { position, node_id }),
    {
        RoutingNode { position, node_id }
    }
}

/// A weighted edge between two nodes.
#[derive(Debug, Clone, PartialEq, Eq, Structural)]
pub struct RoutingEdge {
    /// One end.
    pub from: usize,
    /// The other end.
    pub to: usize,
    /// Cost of following the edge.
    pub weight: u32,
}

impl RoutingEdge {
    /// Creates a new edge.
    pub fn new(from: usize, to: usize, weight: u32) -> (r: Self)
        ensures
            r == (RoutingEdge { from, to, weight }),
    {
        RoutingEdge { from, to, weight }
    }
}

/// The neighbors of `node` over the edges, in edge order: the other end
/// of each edge that touches it, with the edge's weight.
pub open spec fn neighbor_list(edges: Seq<RoutingEdge>, node: usize) -> Seq<(usize, u32)>
    decreases edges.len(),
{
    if edges.len() == 0 {
        Seq::empty()
    } else {
        let rest = neighbor_list(edges.drop_last(), node);
        let e = edges.last();
        if e.from == node {
            rest.push((e.to, e.weight))
        } else if e.to == node {
            rest.push((e.from, e.weight))
        } else {
            rest
        }
    }
}

/// A graph of routing points.
#[derive(Debug)]
pub struct RoutingGraph {
    /// Nodes by identifier.
    pub nodes: HashMap<usize, RoutingNode>,
    /// Edges, in the order they were added.
    pub edges: Vec<RoutingEdge>,
}

impl RoutingGraph {
    /// Creates an empty graph.
    pub fn new() -> (r: Self)
        ensures
            r.nodes@ == Map::<usize, RoutingNode>::empty(),
            r.edges@ == Seq::<RoutingEdge>::empty(),
    {
        RoutingGraph { nodes: HashMap::new(), edges: Vec::new() }
    }

    /// Adds a node at `position`, identified by the number of nodes before
    /// it, and returns that identifier.
    pub fn add_node(&mut self, position: Point) -> (r: usize)
        ensures
            r == old(self).nodes@.len(),
            final(self).nodes@ == old(self).nodes@.insert(r, RoutingNode { position, node_id: r }),
            final(self).edges@ == old(self).edges@,
    {
        let node_id = self.nodes.len();
        let node = RoutingNode::new(position, node_id);
        self.nodes.insert(node_id, node);
        node_id
    }

    /// Adds an edge.
    pub fn add_edge(&mut self, from: usize, to: usize, weight: u32)
        ensures
            final(self).nodes@ == old(self).nodes@,
            final(self).edges@ == old(self).edges@.push(RoutingEdge { from, to, weight }),
    {
        self.edges.push(RoutingEdge::new(from, to, weight));
    }

    /// The neighbors of a node, with the weights of the edges to them.
    pub fn neighbors(&self, node_id: usize) -> (r: Vec<(usize, u32)>)
        ensures
            r@ == neighbor_list(self.edges@, node_id),
    {
        let mut r: Vec<(usize, u32)> = Vec::new();
        let n = self.edges.len();
        for i in 0..n
            invariant
                n == self.edges@.len(),
                r@ == neighbor_list(self.edges@.take(i as int), node_id),
        {
            let edge = &self.edges[i];
            assert(self.edges@.take(i + 1).drop_last() =~= self.edges@.take(i as int));
            assert(self.edges@.take(i + 1).last() == self.edges@[i as int]);
            if edge.from == node_id {
                r.push((edge.to, edge.weight));
            } else if edge.to == node_id {
                r.push((edge.from, edge.weight));
            }
        }
        assert(self.edges@.take(n as int) =~= self.edges@);
        r
    }
}

impl Default for RoutingGraph {
    fn default() -> (r: Self)
        ensures
            r.nodes@ == Map::<usize, RoutingNode>::empty(),
            r.edges@ == Seq::<RoutingEdge>::empty(),
    {
        RoutingGraph::new()
    }
}

/// Configuration for routing.
#[derive(Debug, Clone)]
pub struct RoutingConfig {
    /// Margin around entities.
    pub entity_margin: u32,
    /// Longest lead line.
    pub max_lead_line_length: u32,
}

impl Default for RoutingConfig {
    fn default() -> (r: Self)
        ensures
            r.entity_margin == 10,
            r.max_lead_line_length == 1000,
    {
        RoutingConfig { entity_margin: 10, max_lead_line_length: 1000 }
    }
}

} // verus!
