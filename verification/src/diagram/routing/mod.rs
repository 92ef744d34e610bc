//! Geometry for orthogonal connection routing: points, rectangles,
//! directions and routed paths, all in whole pixels.

use crate::infrastructure::text::{append_str, decimal, push_decimal};
use crate::infrastructure::types::NonEmpty;
use vstd::prelude::*;

pub mod collision;
pub mod graph;
pub mod lead_lines;
pub mod orthogonal_router;
pub mod pathfinding;

verus! {

broadcast use crate::infrastructure::types::lemma_non_empty_len;

/// A point in 2D space.
#[derive(Debug, Clone, Copy, PartialEq, Eq, Structural, Hash)]
pub struct Point {
    /// X coordinate.
    pub x: u32,
    /// Y coordinate.
    pub y: u32,
}

/// The distance between two coordinates.
pub open spec fn gap(a: u32, b: u32) -> int {
    if a >= b {
        a - b
    } else {
        b - a
    }
}

/// The Manhattan distance between two points.
pub open spec fn manhattan(a: Point, b: Point) -> int {
    gap(a.x, b.x) + gap(a.y, b.y)
}

impl Point {
    /// Creates a new point.
    pub fn new(x: u32, y: u32) -> (r: Self)
        ensures
            r == (Point { x, y }),
    {
        Point { x, y }
    }

    /// The Manhattan distance to `other`. The coordinates are taken as
    /// signed 32-bit values, so they and the distance must fit in one.
    pub fn manhattan_distance(&self, other: &Point) -> (r: u32)
        requires
            self.x <= i32::MAX,
            self.y <= i32::MAX,
            other.x <= i32::MAX,
            other.y <= i32::MAX,
            manhattan(*self, *other) <= i32::MAX,
        ensures
            r == manhattan(*self, *other),
    {
        let dx = if self.x >= other.x { self.x - other.x } else { other.x - self.x };
        let dy = if self.y >= other.y { self.y - other.y } else { other.y - self.y };
        dx + dy
    }

    /// The x coordinate.
    pub fn right(&self) -> (r: u32)
        ensures
            r == self.x,
    {
        self.x
    }

    /// The y coordinate.
    pub fn bottom(&self) -> (r: u32)
        ensures
            r == self.y,
    {
        self.y
    }
}

/// A rectangle: top-left corner and size.
#[derive(Debug, Clone, Copy, PartialEq, Eq, Structural)]
pub struct Rectangle {
    /// X coordinate of the top-left corner.
    pub x: u32,
    /// Y coordinate of the top-left corner.
    pub y: u32,
    /// Width.
    pub width: u32,
    /// Height.
    pub height: u32,
}

impl Rectangle {
    /// The right and bottom edges fit in 32 bits.
    pub open spec fn fits(self) -> bool {
        self.x + self.width <= u32::MAX && self.y + self.height <= u32::MAX
    }

    /// Whether the two rectangles overlap or touch.
    pub open spec fn overlaps(self, other: Rectangle) -> bool {
        !(self.x + self.width < other.x || other.x + other.width < self.x || self.y + self.height < other.y
            || other.y + other.height < self.y)
    }

    /// Whether `p` lies inside the rectangle or on its border.
    pub open spec fn holds(self, p: Point) -> bool {
        p.x >= self.x && p.x <= self.x + self.width && p.y >= self.y && p.y <= self.y + self.height
    }

    /// Creates a new rectangle.
    pub fn new(x: u32, y: u32, width: u32, height: u32) -> (r: Self)
        ensures
            r == (Rectangle { x, y, width, height }),
    {
        Rectangle { x, y, width, height }
    }

    /// The center, rounded down.
    pub fn center(&self) -> (r: Point)
        requires
            self.fits(),
        ensures
            r == (Point { x: (self.x + self.width / 2) as u32, y: (self.y + self.height / 2) as u32 }),
    {
        Point::new(self.x + self.width / 2, self.y + self.height / 2)
    }

    /// The right edge.
    pub fn right(&self) -> (r: u32)
        requires
            self.x + self.width <= u32::MAX,
        ensures
            r == self.x + self.width,
    {
        self.x + self.width
    }

    /// The bottom edge.
    pub fn bottom(&self) -> (r: u32)
        requires
            self.y + self.height <= u32::MAX,
        ensures
            r == self.y + self.height,
    {
        self.y + self.height
    }

    /// The corners: top-left, top-right, bottom-left, bottom-right.
    pub fn corners(&self) -> (r: [Point; 4])
        requires
            self.fits(),
        ensures
            r@ == seq![
                Point { x: self.x, y: self.y },
                Point { x: (self.x + self.width) as u32, y: self.y },
                Point { x: self.x, y: (self.y + self.height) as u32 },
                Point { x: (self.x + self.width) as u32, y: (self.y + self.height) as u32 },
            ],
    {
        let r = [
            Point::new(self.x, self.y),
            Point::new(self.x + self.width, self.y),
            Point::new(self.x, self.y + self.height),
            Point::new(self.x + self.width, self.y + self.height),
        ];
        assert(r@ =~= seq![r[0], r[1], r[2], r[3]]);
        r
    }

    /// The centers of the edges: top, right, bottom, left.
    pub fn edge_centers(&self) -> (r: [Point; 4])
        requires
            self.fits(),
        ensures
            r@ == seq![
                Point { x: (self.x + self.width / 2) as u32, y: self.y },
                Point { x: (self.x + self.width) as u32, y: (self.y + self.height / 2) as u32 },
                Point { x: (self.x + self.width / 2) as u32, y: (self.y + self.height) as u32 },
                Point { x: self.x, y: (self.y + self.height / 2) as u32 },
            ],
    {
        let r = [
            Point::new(self.x + self.width / 2, self.y),
            Point::new(self.x + self.width, self.y + self.height / 2),
            Point::new(self.x + self.width / 2, self.y + self.height),
            Point::new(self.x, self.y + self.height / 2),
        ];
        assert(r@ =~= seq![r[0], r[1], r[2], r[3]]);
        r
    }

    /// Whether `point` lies inside the rectangle or on its border.
    pub fn contains(&self, point: &Point) -> (r: bool)
        requires
            self.fits(),
        ensures
            r == self.holds(*point),
    {
        point.x >= self.x && point.x <= self.x + self.width && point.y >= self.y && point.y <= self.y + self.height
    }

    /// Whether the rectangles overlap or touch.
    pub fn intersects(&self, other: &Rectangle) -> (r: bool)
        requires
            self.fits(),
            other.fits(),
        ensures
            r == self.overlaps(*other),
    {
        !(self.x + self.width < other.x || other.x + other.width < self.x || self.y + self.height < other.y
            || other.y + other.height < self.y)
    }
}

/// Overlap is symmetric.
pub proof fn lemma_overlap_symmetric(a: Rectangle, b: Rectangle)
    ensures
        a.overlaps(b) == b.overlaps(a),
{
}

/// Direction of movement.
#[derive(Debug, Clone, Copy, PartialEq, Eq, Structural, Hash)]
pub enum Direction {
    /// Upward.
    North,
    /// Downward.
    South,
    /// Rightward.
    East,
    /// Leftward.
    West,
}

/// SVG path data for the points: `M x y` for the first, then ` L x y` for
/// each of the others.
pub open spec fn path_data(points: Seq<Point>) -> Seq<char>
    decreases points.len(),
{
    if points.len() == 0 {
        Seq::empty()
    } else if points.len() == 1 {
        "M "@ + decimal(points[0].x as nat) + " "@ + decimal(points[0].y as nat)
    } else {
        path_data(points.drop_last()) + " L "@ + decimal(points.last().x as nat) + " "@ + decimal(
            points.last().y as nat,
        )
    }
}

/// A complete route through points.
#[derive(Debug, Clone)]
pub struct RoutePath {
    /// Points along the route.
    pub nodes: NonEmpty<Point>,
    /// Total cost of the route.
    pub total_cost: u32,
}

impl RoutePath {
    /// Creates a new route path.
    pub fn new(nodes: NonEmpty<Point>, total_cost: u32) -> (r: Self)
        ensures
            r.nodes@ == nodes@,
            r.total_cost == total_cost,
    {
        RoutePath { nodes, total_cost }
    }

    /// The route as SVG path data.
    pub fn to_svg_path(&self) -> (r: String)
        ensures
            r@ == path_data(self.nodes@),
    {
        let points = self.nodes.iter();
        let n = points.len();
        let first = points[0];
        let mut path = "M ".to_owned();
        push_decimal(&mut path, first.x as u64);
        append_str(&mut path, " ");
        push_decimal(&mut path, first.y as u64);
        assert(self.nodes@.take(1)[0] == self.nodes@[0]);
        assert(path@ == path_data(self.nodes@.take(1)));
        for i in 1..n
            invariant
                n == points@.len(),
                points@.len() == self.nodes@.len(),
                forall|k: int| 0 <= k < points@.len() ==> *points@[k] == self.nodes@[k],
                path@ == path_data(self.nodes@.take(i as int)),
        {
            let p = points[i];
            append_str(&mut path, " L ");
            push_decimal(&mut path, p.x as u64);
            append_str(&mut path, " ");
            push_decimal(&mut path, p.y as u64);
            assert(self.nodes@.take(i + 1).drop_last() =~= self.nodes@.take(i as int));
            assert(self.nodes@.take(i + 1).last() == self.nodes@[i as int]);
        }
        assert(self.nodes@.take(n as int) =~= self.nodes@);
        path
    }
}

/// Configuration for the routing algorithm.
#[derive(Debug, Clone)]
pub struct RoutingConfig {
    /// Margin around entities to avoid placing routes too close.
    pub margin: u32,
}

impl Default for RoutingConfig {
    fn default() -> (r: Self)
        ensures
            r.margin == 10,
    {
        RoutingConfig { margin: 10 }
    }
}

} // verus!
