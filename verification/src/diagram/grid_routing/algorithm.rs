//! Orthogonal connector routing on the grid graph, in three stages: lead
//! lines from the entities' edge centres and centres, a graph of the
//! points where they meet, and a cheapest path through it.

use super::{crossing, on_line, Direction, LeadLine, Point, Rectangle, RoutingConfig, RoutingEdge, RoutingGraph, RoutingNode};
use crate::diagram::routing::manhattan;
use crate::diagram::routing::orthogonal_router::{dedup, lemma_dedup_distinct, lemma_points_contain};
use vstd::prelude::*;

verus! {

/// `a - b`, or zero where that would be negative.
pub open spec fn floor_sub(a: int, b: int) -> int {
    if a > b {
        a - b
    } else {
        0
    }
}

/// `a - b` for `u32`s, stopping at zero.
fn saturating_minus(a: u32, b: u32) -> (r: u32)
    ensures
        r == floor_sub(a as int, b as int),
{
    if a > b {
        a - b
    } else {
        0
    }
}

/// `e` grown by `margin` on every side (not past zero on the top and left).
pub open spec fn expand(e: Rectangle, margin: int) -> Rectangle {
    Rectangle {
        x: floor_sub(e.x as int, margin) as u32,
        y: floor_sub(e.y as int, margin) as u32,
        width: (e.width + 2 * margin) as u32,
        height: (e.height + 2 * margin) as u32,
    }
}

/// Whether growing `e` by `margin` stays within 32 bits.
pub open spec fn expand_fits(e: Rectangle, margin: int) -> bool {
    &&& e.width + 2 * margin <= u32::MAX
    &&& e.height + 2 * margin <= u32::MAX
    &&& expand(e, margin).fits()
}

/// Where a line from `start` in direction `d` first meets `e` grown by
/// `margin`: on the grown rectangle's far side from `start`, when the line
/// runs across it; never when `start` lies in it.
pub open spec fn entity_collision(start: Point, d: Direction, e: Rectangle, margin: int) -> Option<Point> {
    let x = expand(e, margin);
    if x.holds(start) {
        None
    } else {
        match d {
            Direction::North => if start.x >= x.x && start.x <= x.x + x.width && start.y > x.y + x.height {
                Some(Point { x: start.x, y: (x.y + x.height) as u32 })
            } else {
                None
            },
            Direction::South => if start.x >= x.x && start.x <= x.x + x.width && start.y < x.y {
                Some(Point { x: start.x, y: x.y })
            } else {
                None
            },
            Direction::East => if start.y >= x.y && start.y <= x.y + x.height && start.x < x.x {
                Some(Point { x: x.x, y: start.y })
            } else {
                None
            },
            Direction::West => if start.y >= x.y && start.y <= x.y + x.height && start.x > x.x + x.width {
                Some(Point { x: (x.x + x.width) as u32, y: start.y })
            } else {
                None
            },
        }
    }
}

/// Where a line from `start` in direction `d` meets the canvas border.
pub open spec fn canvas_collision(start: Point, d: Direction, canvas: Rectangle) -> Point {
    match d {
        Direction::North => Point { x: start.x, y: canvas.y },
        Direction::South => Point { x: start.x, y: (canvas.y + canvas.height) as u32 },
        Direction::East => Point { x: (canvas.x + canvas.width) as u32, y: start.y },
        Direction::West => Point { x: canvas.x, y: start.y },
    }
}

/// The point `max` away from `start` in direction `d` (not past zero).
pub open spec fn farthest(start: Point, d: Direction, max: int) -> Point {
    match d {
        Direction::North => Point { x: start.x, y: floor_sub(start.y as int, max) as u32 },
        Direction::South => Point { x: start.x, y: (start.y + max) as u32 },
        Direction::East => Point { x: (start.x + max) as u32, y: start.y },
        Direction::West => Point { x: floor_sub(start.x as int, max) as u32, y: start.y },
    }
}

/// The nearer of the best point so far and a candidate: the candidate when
/// it is strictly nearer to `start`.
pub open spec fn nearer(start: Point, best: (Point, int), candidate: Option<Point>) -> (Point, int) {
    match candidate {
        Some(c) => if manhattan(start, c) < best.1 {
            (c, manhattan(start, c))
        } else {
            best
        },
        None => best,
    }
}

/// The nearest stop of a line from `start` in direction `d` among the
/// farthest point, the canvas border and the grown entities, with its
/// distance; of equally near ones the first in that order.
pub open spec fn nearest_stop(start: Point, d: Direction, entities: Seq<Rectangle>, canvas: Rectangle, cfg: RoutingConfig) -> (Point, int)
    decreases entities.len(),
{
    if entities.len() == 0 {
        nearer(
            start,
            (farthest(start, d, cfg.max_lead_line_length as int), cfg.max_lead_line_length as int),
            Some(canvas_collision(start, d, canvas)),
        )
    } else {
        nearer(
            start,
            nearest_stop(start, d, entities.drop_last(), canvas, cfg),
            entity_collision(start, d, entities.last(), cfg.entity_margin as int),
        )
    }
}

/// Whether the Manhattan distance from `a` to `b` can be taken in signed
/// 32-bit arithmetic.
pub open spec fn distance_fits(a: Point, b: Point) -> bool {
    a.x <= i32::MAX && a.y <= i32::MAX && b.x <= i32::MAX && b.y <= i32::MAX && manhattan(a, b) <= i32::MAX
}

/// Whether the search for where a line from `start` in direction `d` stops
/// stays within 32 bits: the farthest point, the canvas and the grown
/// entities fit, and so does the distance to every stop.
pub open spec fn stop_fits(start: Point, d: Direction, entities: Seq<Rectangle>, canvas: Rectangle, cfg: RoutingConfig) -> bool {
    let max = cfg.max_lead_line_length as int;
    let m = cfg.entity_margin as int;
    &&& (d is South ==> start.y + max <= u32::MAX)
    &&& (d is East ==> start.x + max <= u32::MAX)
    &&& canvas.fits()
    &&& distance_fits(start, canvas_collision(start, d, canvas))
    &&& forall|k: int|
        0 <= k < entities.len() ==> {
            &&& expand_fits(#[trigger] entities[k], m)
            &&& (entity_collision(start, d, entities[k], m) matches Some(c) ==> distance_fits(start, c))
        }
}

/// The lead line from `start` in direction `d` to where it stops.
pub open spec fn lead_line(start: Point, d: Direction, entities: Seq<Rectangle>, canvas: Rectangle, cfg: RoutingConfig) -> LeadLine {
    LeadLine { start, direction: d, end: nearest_stop(start, d, entities, canvas, cfg).0 }
}

/// The lead lines from `start` in each of `dirs`, in order.
pub open spec fn lead_lines_from(start: Point, dirs: Seq<Direction>, entities: Seq<Rectangle>, canvas: Rectangle, cfg: RoutingConfig) -> Seq<LeadLine> {
    dirs.map_values(|d: Direction| lead_line(start, d, entities, canvas, cfg))
}

/// The centre of `e`.
pub open spec fn center_of(e: Rectangle) -> Point {
    Point { x: (e.x + e.width / 2) as u32, y: (e.y + e.height / 2) as u32 }
}

/// The four directions, north, south, east, west.
pub open spec fn all_directions() -> Seq<Direction> {
    seq![Direction::North, Direction::South, Direction::East, Direction::West]
}

/// The vertical directions, north and south.
pub open spec fn vertical_directions() -> Seq<Direction> {
    seq![Direction::North, Direction::South]
}

/// The horizontal directions, east and west.
pub open spec fn horizontal_directions() -> Seq<Direction> {
    seq![Direction::East, Direction::West]
}

/// The lead lines from the centres of the edges of `e`: north and south
/// from the top and bottom ones, east and west from the right and left
/// ones, in the order top, right, bottom, left.
pub open spec fn edge_center_lines(e: Rectangle, entities: Seq<Rectangle>, canvas: Rectangle, cfg: RoutingConfig) -> Seq<LeadLine> {
    let top = Point { x: (e.x + e.width / 2) as u32, y: e.y };
    let right = Point { x: (e.x + e.width) as u32, y: (e.y + e.height / 2) as u32 };
    let bottom = Point { x: (e.x + e.width / 2) as u32, y: (e.y + e.height) as u32 };
    let left = Point { x: e.x, y: (e.y + e.height / 2) as u32 };
    lead_lines_from(top, vertical_directions(), entities, canvas, cfg) + lead_lines_from(
        right,
        horizontal_directions(),
        entities,
        canvas,
        cfg,
    ) + lead_lines_from(bottom, vertical_directions(), entities, canvas, cfg) + lead_lines_from(
        left,
        horizontal_directions(),
        entities,
        canvas,
        cfg,
    )
}

/// The lead lines in every direction from the centre of `e`.
pub open spec fn center_lines(e: Rectangle, entities: Seq<Rectangle>, canvas: Rectangle, cfg: RoutingConfig) -> Seq<LeadLine> {
    lead_lines_from(center_of(e), all_directions(), entities, canvas, cfg)
}

/// Whether every line from `start` in `dirs` can be found in 32 bits.
pub open spec fn stops_fit(start: Point, dirs: Seq<Direction>, entities: Seq<Rectangle>, canvas: Rectangle, cfg: RoutingConfig) -> bool {
    forall|i: int| 0 <= i < dirs.len() ==> #[trigger] stop_fits(start, dirs[i], entities, canvas, cfg)
}

/// Whether the lines from the edge centres of `e` can be found in 32 bits.
pub open spec fn edge_center_lines_fit(e: Rectangle, entities: Seq<Rectangle>, canvas: Rectangle, cfg: RoutingConfig) -> bool {
    let top = Point { x: (e.x + e.width / 2) as u32, y: e.y };
    let right = Point { x: (e.x + e.width) as u32, y: (e.y + e.height / 2) as u32 };
    let bottom = Point { x: (e.x + e.width / 2) as u32, y: (e.y + e.height) as u32 };
    let left = Point { x: e.x, y: (e.y + e.height / 2) as u32 };
    &&& e.fits()
    &&& stops_fit(top, vertical_directions(), entities, canvas, cfg)
    &&& stops_fit(right, horizontal_directions(), entities, canvas, cfg)
    &&& stops_fit(bottom, vertical_directions(), entities, canvas, cfg)
    &&& stops_fit(left, horizontal_directions(), entities, canvas, cfg)
}

/// Whether the lines from the centre of `e` can be found in 32 bits.
pub open spec fn center_lines_fit(e: Rectangle, entities: Seq<Rectangle>, canvas: Rectangle, cfg: RoutingConfig) -> bool {
    e.fits() && stops_fit(center_of(e), all_directions(), entities, canvas, cfg)
}

/// The lead lines of `es`: for each in turn, those from its edge centres
/// and then those from its centre.
pub open spec fn lead_lines_of(es: Seq<Rectangle>, entities: Seq<Rectangle>, canvas: Rectangle, cfg: RoutingConfig) -> Seq<LeadLine>
    decreases es.len(),
{
    if es.len() == 0 {
        Seq::empty()
    } else {
        lead_lines_of(es.drop_last(), entities, canvas, cfg) + edge_center_lines(es.last(), entities, canvas, cfg)
            + center_lines(es.last(), entities, canvas, cfg)
    }
}

/// The entities a route between `from` and `to` avoids: both of them first,
/// then the obstacles.
pub open spec fn route_entities(from: Rectangle, to: Rectangle, obstacles: Seq<Rectangle>) -> Seq<Rectangle> {
    seq![from, to] + obstacles
}

/// Whether all the lead lines of the entities can be found in 32 bits.
pub open spec fn lead_lines_fit(entities: Seq<Rectangle>, canvas: Rectangle, cfg: RoutingConfig) -> bool {
    forall|k: int|
        0 <= k < entities.len() ==> edge_center_lines_fit(#[trigger] entities[k], entities, canvas, cfg) && center_lines_fit(
            entities[k],
            entities,
            canvas,
            cfg,
        )
}

/// The complete orthogonal connector routing algorithm.
pub struct OrthogonalRouter {
    config: RoutingConfig,
}

impl OrthogonalRouter {
    /// The configuration the router was made with.
    pub closed spec fn configuration(&self) -> RoutingConfig {
        self.config
    }

    /// Creates a new orthogonal router with the given configuration.
    pub fn new(config: RoutingConfig) -> (r: Self)
        ensures
            r.configuration() == config,
    {
        OrthogonalRouter { config }
    }

    /// Where a line from `start` in direction `direction` meets `entity`
    /// grown by `margin`: see `entity_collision`.
    pub fn find_entity_collision(&self, start: Point, direction: Direction, entity: &Rectangle, margin: u32) -> (r: Option<Point>)
        requires
            expand_fits(*entity, margin as int),
        ensures
            r == entity_collision(start, direction, *entity, margin as int),
    {
        let expanded = Rectangle::new(
            saturating_minus(entity.x, margin),
            saturating_minus(entity.y, margin),
            entity.width + 2 * margin,
            entity.height + 2 * margin,
        );
        if expanded.contains(&start) {
            return None;
        }
        match direction {
            Direction::North => {
                if start.x >= expanded.x && start.x <= expanded.x + expanded.width && start.y > expanded.y
                    + expanded.height {
                    Some(Point::new(start.x, expanded.y + expanded.height))
                } else {
                    None
                }
            },
            Direction::South => {
                if start.x >= expanded.x && start.x <= expanded.x + expanded.width && start.y < expanded.y {
                    Some(Point::new(start.x, expanded.y))
                } else {
                    None
                }
            },
            Direction::East => {
                if start.y >= expanded.y && start.y <= expanded.y + expanded.height && start.x < expanded.x {
                    Some(Point::new(expanded.x, start.y))
                } else {
                    None
                }
            },
            Direction::West => {
                if start.y >= expanded.y && start.y <= expanded.y + expanded.height && start.x > expanded.x
                    + expanded.width {
                    Some(Point::new(expanded.x + expanded.width, start.y))
                } else {
                    None
                }
            },
        }
    }

    /// Where a line from `start` in direction `direction` meets the canvas
    /// border.
    pub fn find_canvas_collision(&self, start: Point, direction: Direction, canvas_bounds: &Rectangle) -> (r: Point)
        requires
            canvas_bounds.fits(),
        ensures
            r == canvas_collision(start, direction, *canvas_bounds),
    {
        match direction {
            Direction::North => Point::new(start.x, canvas_bounds.y),
            Direction::South => Point::new(start.x, canvas_bounds.y + canvas_bounds.height),
            Direction::East => Point::new(canvas_bounds.x + canvas_bounds.width, start.y),
            Direction::West => Point::new(canvas_bounds.x, start.y),
        }
    }

    /// Where a line from `start` in direction `direction` stops: the
    /// nearest of the point as far as lead lines reach, the canvas border
    /// and the grown entities.
    pub fn find_line_termination(
        &self,
        start: Point,
        direction: Direction,
        all_entities: &[Rectangle],
        canvas_bounds: &Rectangle,
    ) -> (r: Point)
        requires
            stop_fits(start, direction, all_entities@, *canvas_bounds, self.configuration()),
        ensures
            r == nearest_stop(start, direction, all_entities@, *canvas_bounds, self.configuration()).0,
    {
        let ghost cfg = self.configuration();
        let max_distance = self.config.max_lead_line_length;
        let margin = self.config.entity_margin;
        let theoretical_end = match direction {
            Direction::North => Point::new(start.x, saturating_minus(start.y, max_distance)),
            Direction::South => Point::new(start.x, start.y + max_distance),
            Direction::East => Point::new(start.x + max_distance, start.y),
            Direction::West => Point::new(saturating_minus(start.x, max_distance), start.y),
        };
        let mut closest_collision = theoretical_end;
        let mut closest_distance = max_distance;
        let canvas_collision = self.find_canvas_collision(start, direction, canvas_bounds);
        let canvas_distance = start.manhattan_distance(&canvas_collision);
        if canvas_distance < closest_distance {
            closest_distance = canvas_distance;
            closest_collision = canvas_collision;
        }
        proof {
            assert(all_entities@.take(0) =~= Seq::<Rectangle>::empty());
        }
        let n = all_entities.len();
        let mut k: usize = 0;
        while k < n
            invariant
                n == all_entities@.len(),
                k <= n,
                cfg == self.configuration(),
                margin == cfg.entity_margin,
                stop_fits(start, direction, all_entities@, *canvas_bounds, cfg),
                (closest_collision, closest_distance as int) == nearest_stop(
                    start,
                    direction,
                    all_entities@.take(k as int),
                    *canvas_bounds,
                    cfg,
                ),
            decreases n - k,
        {
            let entity = &all_entities[k];
            proof {
                assert(all_entities@.take(k + 1).drop_last() =~= all_entities@.take(k as int));
                assert(expand_fits(all_entities@[k as int], margin as int));
            }
            if let Some(collision) = self.find_entity_collision(start, direction, entity, margin) {
                let distance = start.manhattan_distance(&collision);
                if distance < closest_distance {
                    closest_distance = distance;
                    closest_collision = collision;
                }
            }
            k = k + 1;
        }
        proof {
            assert(all_entities@.take(n as int) =~= all_entities@);
        }
        closest_collision
    }

    /// The lead line from `start` in direction `direction` to where it
    /// stops.
    pub fn extend_line_in_direction(
        &self,
        start: Point,
        direction: Direction,
        all_entities: &[Rectangle],
        canvas_bounds: &Rectangle,
    ) -> (r: LeadLine)
        requires
            stop_fits(start, direction, all_entities@, *canvas_bounds, self.configuration()),
        ensures
            r == lead_line(start, direction, all_entities@, *canvas_bounds, self.configuration()),
    {
        let end = self.find_line_termination(start, direction, all_entities, canvas_bounds);
        LeadLine::new(start, direction, end)
    }

    /// The lead lines from `start` in each of `directions`, in order.
    pub fn extend_line_in_directions(
        &self,
        start: Point,
        directions: &[Direction],
        all_entities: &[Rectangle],
        canvas_bounds: &Rectangle,
    ) -> (r: Vec<LeadLine>)
        requires
            stops_fit(start, directions@, all_entities@, *canvas_bounds, self.configuration()),
        ensures
            r@ == lead_lines_from(start, directions@, all_entities@, *canvas_bounds, self.configuration()),
    {
        let mut lines: Vec<LeadLine> = Vec::new();
        let n = directions.len();
        for i in 0..n
            invariant
                n == directions@.len(),
                stops_fit(start, directions@, all_entities@, *canvas_bounds, self.configuration()),
                lines@ == lead_lines_from(start, directions@.take(i as int), all_entities@, *canvas_bounds, self.configuration()),
        {
            proof {
                assert(stop_fits(start, directions@[i as int], all_entities@, *canvas_bounds, self.configuration()));
            }
            let line = self.extend_line_in_direction(start, directions[i], all_entities, canvas_bounds);
            lines.push(line);
            proof {
                assert(directions@.take(i + 1) =~= directions@.take(i as int).push(directions@[i as int]));
                assert(lines@ =~= lead_lines_from(start, directions@.take(i + 1), all_entities@, *canvas_bounds, self.configuration()));
            }
        }
        proof {
            assert(directions@.take(n as int) =~= directions@);
        }
        lines
    }

    /// The lead lines from the centre of `entity` in every direction.
    pub fn generate_lines_from_center(&self, entity: &Rectangle, all_entities: &[Rectangle], canvas_bounds: &Rectangle) -> (r: Vec<LeadLine>)
        requires
            center_lines_fit(*entity, all_entities@, *canvas_bounds, self.configuration()),
        ensures
            r@ == center_lines(*entity, all_entities@, *canvas_bounds, self.configuration()),
    {
        let center = entity.center();
        let directions = [Direction::North, Direction::South, Direction::East, Direction::West];
        assert(directions@ =~= all_directions());
        self.extend_line_in_directions(center, &directions, all_entities, canvas_bounds)
    }

    /// The lead lines from the centres of the edges of `entity`: see
    /// `edge_center_lines`.
    pub fn generate_lines_from_edge_centers(
        &self,
        entity: &Rectangle,
        all_entities: &[Rectangle],
        canvas_bounds: &Rectangle,
    ) -> (r: Vec<LeadLine>)
        requires
            edge_center_lines_fit(*entity, all_entities@, *canvas_bounds, self.configuration()),
        ensures
            r@ == edge_center_lines(*entity, all_entities@, *canvas_bounds, self.configuration()),
    {
        let edge_centers = entity.edge_centers();
        let vertical = [Direction::North, Direction::South];
        let horizontal = [Direction::East, Direction::West];
        assert(vertical@ =~= vertical_directions());
        assert(horizontal@ =~= horizontal_directions());
        let mut lines = self.extend_line_in_directions(edge_centers[0], &vertical, all_entities, canvas_bounds);
        let mut more = self.extend_line_in_directions(edge_centers[1], &horizontal, all_entities, canvas_bounds);
        lines.append(&mut more);
        let mut more = self.extend_line_in_directions(edge_centers[2], &vertical, all_entities, canvas_bounds);
        lines.append(&mut more);
        let mut more = self.extend_line_in_directions(edge_centers[3], &horizontal, all_entities, canvas_bounds);
        lines.append(&mut more);
        lines
    }

    /// Stage one: the lead lines of `from`, `to` and the obstacles, each
    /// stopping at the others and at the canvas border.
    pub fn generate_lead_lines(&self, from: &Rectangle, to: &Rectangle, obstacles: &[Rectangle], canvas_bounds: &Rectangle) -> (r: Vec<LeadLine>)
        requires
            lead_lines_fit(route_entities(*from, *to, obstacles@), *canvas_bounds, self.configuration()),
        ensures
            r@ == lead_lines_of(
                route_entities(*from, *to, obstacles@),
                route_entities(*from, *to, obstacles@),
                *canvas_bounds,
                self.configuration(),
            ),
    {
        let ghost cfg = self.configuration();
        let mut all_entities: Vec<Rectangle> = Vec::new();
        all_entities.push(*from);
        all_entities.push(*to);
        let no = obstacles.len();
        for i in 0..no
            invariant
                no == obstacles@.len(),
                all_entities@ == seq![*from, *to] + obstacles@.take(i as int),
        {
            all_entities.push(obstacles[i]);
            proof {
                assert(obstacles@.take(i + 1) =~= obstacles@.take(i as int).push(obstacles@[i as int]));
                assert(all_entities@ =~= seq![*from, *to] + obstacles@.take(i + 1));
            }
        }
        proof {
            assert(obstacles@.take(no as int) =~= obstacles@);
        }
        let ghost all = all_entities@;
        let mut lead_lines: Vec<LeadLine> = Vec::new();
        let n = all_entities.len();
        for k in 0..n
            invariant
                n == all.len(),
                all == all_entities@,
                all == route_entities(*from, *to, obstacles@),
                cfg == self.configuration(),
                lead_lines_fit(all, *canvas_bounds, cfg),
                lead_lines@ == lead_lines_of(all.take(k as int), all, *canvas_bounds, cfg),
        {
            let entity = &all_entities[k];
            proof {
                assert(all.take(k + 1).drop_last() =~= all.take(k as int));
                assert(edge_center_lines_fit(all[k as int], all, *canvas_bounds, cfg));
            }
            let mut lines = self.generate_lines_from_edge_centers(entity, all_entities.as_slice(), canvas_bounds);
            lead_lines.append(&mut lines);
            let mut lines = self.generate_lines_from_center(entity, all_entities.as_slice(), canvas_bounds);
            lead_lines.append(&mut lines);
        }
        proof {
            assert(all.take(n as int) =~= all);
        }
        lead_lines
    }
}

/// The start and end of each line, in order.
pub open spec fn line_ends(lines: Seq<LeadLine>) -> Seq<Point>
    decreases lines.len(),
{
    if lines.len() == 0 {
        Seq::empty()
    } else {
        line_ends(lines.drop_last()) + seq![lines.last().start, lines.last().end]
    }
}

/// Where `l` crosses each of `others`, in order.
pub open spec fn crossings_with(l: LeadLine, others: Seq<LeadLine>) -> Seq<Point>
    decreases others.len(),
{
    if others.len() == 0 {
        Seq::empty()
    } else {
        let r = crossings_with(l, others.drop_last());
        match crossing(l, others.last()) {
            Some(p) => r.push(p),
            None => r,
        }
    }
}

/// Where each of the first `i` lines crosses the lines after it, in order.
pub open spec fn crossings_upto(lines: Seq<LeadLine>, i: nat) -> Seq<Point>
    decreases i,
{
    if i == 0 || i > lines.len() {
        Seq::empty()
    } else {
        crossings_upto(lines, (i - 1) as nat) + crossings_with(lines[i - 1], lines.subrange(i as int, lines.len() as int))
    }
}

/// The points of the routing graph: the ends of the lines and then the
/// points where two of them cross, each point once, where it first appears.
pub open spec fn graph_points(lines: Seq<LeadLine>) -> Seq<Point> {
    dedup(line_ends(lines) + crossings_upto(lines, lines.len()))
}

/// What `points` is after adding `p`, unless it is there already.
fn add_point(points: &mut Vec<Point>, p: Point)
    ensures
        final(points)@ == (if old(points)@.contains(p) {
            old(points)@
        } else {
            old(points)@.push(p)
        }),
{
    let n = points.len();
    let mut k: usize = 0;
    while k < n
        invariant
            n == points@.len(),
            points@ == old(points)@,
            k <= n,
            forall|j: int| 0 <= j < k ==> points@[j] != p,
        decreases n - k,
    {
        if points[k] == p {
            return;
        }
        k = k + 1;
    }
    points.push(p);
}

/// `dedup` of a sequence one longer.
proof fn lemma_dedup_push(seen: Seq<Point>, p: Point)
    ensures
        dedup(seen.push(p)) == (if dedup(seen).contains(p) {
            dedup(seen)
        } else {
            dedup(seen).push(p)
        }),
{
    assert(seen.push(p).drop_last() =~= seen);
}

/// How far along direction `d` the point `p` lies.
pub open spec fn along_key(p: Point, d: Direction) -> int {
    match d {
        Direction::North => -(p.y as int),
        Direction::South => p.y as int,
        Direction::East => p.x as int,
        Direction::West => -(p.x as int),
    }
}

/// Where `p` goes in `s`: after the leading points that lie no further
/// along `d` than it.
pub open spec fn slot(s: Seq<Point>, p: Point, d: Direction) -> int
    decreases s.len(),
{
    if s.len() == 0 || along_key(s[0], d) > along_key(p, d) {
        0
    } else {
        1 + slot(s.drop_first(), p, d)
    }
}

/// `s` sorted along `d`, points equally far along in their order in `s`.
pub open spec fn sorted_along(s: Seq<Point>, d: Direction) -> Seq<Point>
    decreases s.len(),
{
    if s.len() == 0 {
        s
    } else {
        let r = sorted_along(s.drop_last(), d);
        r.insert(slot(r, s.last(), d), s.last())
    }
}

/// Whether `s` runs along `d`: no point lies further along than a later one.
pub open spec fn runs_along(s: Seq<Point>, d: Direction) -> bool {
    forall|i: int, j: int| 0 <= i < j < s.len() ==> along_key(#[trigger] s[i], d) <= along_key(#[trigger] s[j], d)
}

/// Whether `a` lies no further along `d` than `b`.
fn no_further(a: Point, b: Point, d: Direction) -> (r: bool)
    ensures
        r == (along_key(a, d) <= along_key(b, d)),
{
    match d {
        Direction::North => a.y >= b.y,
        Direction::South => a.y <= b.y,
        Direction::East => a.x <= b.x,
        Direction::West => a.x >= b.x,
    }
}

/// The slot is the count of leading points no further along.
proof fn lemma_slot(s: Seq<Point>, p: Point, d: Direction, k: int)
    requires
        0 <= k <= s.len(),
        forall|j: int| 0 <= j < k ==> along_key(#[trigger] s[j], d) <= along_key(p, d),
        k < s.len() ==> along_key(s[k], d) > along_key(p, d),
    ensures
        slot(s, p, d) == k,
    decreases k,
{
    if k > 0 {
        assert(along_key(s[0], d) <= along_key(p, d));
        let t = s.drop_first();
        assert forall|j: int| 0 <= j < k - 1 implies along_key(#[trigger] t[j], d) <= along_key(p, d) by {
            assert(t[j] == s[j + 1]);
        }
        lemma_slot(t, p, d, k - 1);
    }
}

/// The points of `pts` on line `l`, in order.
pub open spec fn on_line_points(pts: Seq<Point>, l: LeadLine) -> Seq<Point>
    decreases pts.len(),
{
    if pts.len() == 0 {
        Seq::empty()
    } else {
        let r = on_line_points(pts.drop_last(), l);
        if on_line(l, pts.last()) {
            r.push(pts.last())
        } else {
            r
        }
    }
}

/// The number of the node at `p`: the index of its first appearance.
pub open spec fn node_number(pts: Seq<Point>, p: Point) -> int
    decreases pts.len(),
{
    if pts.len() == 0 || pts[0] == p {
        0
    } else {
        1 + node_number(pts.drop_first(), p)
    }
}

/// The edges between consecutive points of `s` that both have nodes, in
/// order, each weighted by the distance between its ends.
pub open spec fn chain_edges(s: Seq<Point>, pts: Seq<Point>) -> Seq<RoutingEdge>
    decreases s.len(),
{
    if s.len() < 2 {
        Seq::empty()
    } else {
        let r = chain_edges(s.drop_last(), pts);
        let a = s[s.len() - 2];
        let b = s.last();
        if pts.contains(a) && pts.contains(b) {
            r.push(RoutingEdge { from: node_number(pts, a) as usize, to: node_number(pts, b) as usize, weight: manhattan(a, b) as u32 })
        } else {
            r
        }
    }
}

/// The edges along each line in turn: between the consecutive points of
/// `pts` on it, sorted along its direction.
pub open spec fn line_edges(lines: Seq<LeadLine>, pts: Seq<Point>) -> Seq<RoutingEdge>
    decreases lines.len(),
{
    if lines.len() == 0 {
        Seq::empty()
    } else {
        line_edges(lines.drop_last(), pts) + chain_edges(
            sorted_along(on_line_points(pts, lines.last()), lines.last().direction),
            pts,
        )
    }
}

/// Whether both coordinates of every point are non-negative `i32`s.
pub open spec fn points_fit(pts: Seq<Point>) -> bool {
    forall|k: int| 0 <= k < pts.len() ==> (#[trigger] pts[k]).x <= i32::MAX && pts[k].y <= i32::MAX
}

/// The graph with a node numbered `i` at each point `pts[i]`.
pub open spec fn nodes_at(pts: Seq<Point>) -> Map<usize, RoutingNode> {
    Map::new(|k: usize| k < pts.len(), |k: usize| RoutingNode { position: pts[k as int], node_id: k })
}

/// The node number of `p` in `pts`, if it has one.
fn find_node(pts: &Vec<Point>, p: Point) -> (r: Option<usize>)
    ensures
        r is Some <==> pts@.contains(p),
        r matches Some(i) ==> i == node_number(pts@, p) && i < pts@.len() && pts@[i as int] == p,
{
    let n = pts.len();
    let mut k: usize = 0;
    assert(pts@.skip(0) =~= pts@);
    while k < n
        invariant
            n == pts@.len(),
            k <= n,
            forall|j: int| 0 <= j < k ==> pts@[j] != p,
            node_number(pts@, p) == k + node_number(pts@.skip(k as int), p),
        decreases n - k,
    {
        proof {
            assert(pts@.skip(k as int)[0] == pts@[k as int]);
            assert(pts@.skip(k as int).drop_first() =~= pts@.skip(k + 1));
        }
        if pts[k] == p {
            return Some(k);
        }
        k = k + 1;
    }
    None
}

impl OrthogonalRouter {
    /// The points of the routing graph: see `graph_points`. Each appears
    /// once, and a point is there exactly when it is the end of a line or
    /// where two lines cross.
    pub fn find_all_intersections(&self, lead_lines: &[LeadLine]) -> (r: Vec<Point>)
        ensures
            r@ == graph_points(lead_lines@),
            forall|p: Point|
                #[trigger] r@.contains(p) <==> (line_ends(lead_lines@) + crossings_upto(lead_lines@, lead_lines@.len())).contains(p),
            forall|i: int, j: int| 0 <= i < j < r@.len() ==> r@[i] != r@[j],
    {
        let ghost lines = lead_lines@;
        let mut points: Vec<Point> = Vec::new();
        let ghost mut seen: Seq<Point> = Seq::empty();
        let n = lead_lines.len();
        for i in 0..n
            invariant
                n == lines.len(),
                lines == lead_lines@,
                seen == line_ends(lines.take(i as int)),
                points@ == dedup(seen),
        {
            let line = &lead_lines[i];
            proof {
                assert(lines.take(i + 1).drop_last() =~= lines.take(i as int));
                lemma_dedup_push(seen, line.start);
                lemma_dedup_push(seen.push(line.start), line.end);
                assert(seen.push(line.start).push(line.end) =~= line_ends(lines.take(i + 1)));
            }
            add_point(&mut points, line.start);
            add_point(&mut points, line.end);
            proof {
                seen = seen.push(line.start).push(line.end);
            }
        }
        proof {
            assert(lines.take(n as int) =~= lines);
            assert(seen + crossings_upto(lines, 0) =~= seen);
        }
        for i in 0..n
            invariant
                n == lines.len(),
                lines == lead_lines@,
                seen == line_ends(lines) + crossings_upto(lines, i as nat),
                points@ == dedup(seen),
        {
            let ghost before = seen;
            proof {
                assert(lines.subrange(i + 1, i + 1) =~= Seq::<LeadLine>::empty());
                assert(seen =~= before + crossings_with(lines[i as int], lines.subrange(i + 1, i + 1)));
            }
            for j in i + 1..n
                invariant
                    n == lines.len(),
                    lines == lead_lines@,
                    i < n,
                    seen == before + crossings_with(lines[i as int], lines.subrange(i + 1, j as int)),
                    points@ == dedup(seen),
            {
                proof {
                    assert(lines.subrange(i + 1, j + 1).drop_last() =~= lines.subrange(i + 1, j as int));
                    assert(lines.subrange(i + 1, j + 1).last() == lines[j as int]);
                }
                if let Some(p) = lead_lines[i].intersection(&lead_lines[j]) {
                    proof {
                        lemma_dedup_push(seen, p);
                    }
                    add_point(&mut points, p);
                    proof {
                        seen = seen.push(p);
                        assert(seen =~= before + crossings_with(lines[i as int], lines.subrange(i + 1, j + 1)));
                    }
                } else {
                    proof {
                        assert(seen =~= before + crossings_with(lines[i as int], lines.subrange(i + 1, j + 1)));
                    }
                }
            }
            proof {
                assert(lines.subrange(i + 1, n as int) =~= lines.subrange((i + 1) as int, lines.len() as int));
                assert(seen =~= line_ends(lines) + crossings_upto(lines, (i + 1) as nat));
            }
        }
        proof {
            lemma_points_contain(Seq::empty(), seen);
            lemma_dedup_distinct(seen);
        }
        points
    }

    /// Sorts the points along `direction`, keeping the order of points
    /// equally far along.
    pub fn sort_points_along_line(&self, points: &mut Vec<Point>, direction: Direction)
        ensures
            final(points)@ == sorted_along(old(points)@, direction),
            final(points)@.to_multiset() == old(points)@.to_multiset(),
            runs_along(final(points)@, direction),
    {
        let ghost input = points@;
        let mut sorted: Vec<Point> = Vec::new();
        let n = points.len();
        assert(sorted@ =~= input.take(0));
        for i in 0..n
            invariant
                n == input.len(),
                points@ == input,
                sorted@ == sorted_along(input.take(i as int), direction),
                sorted@.to_multiset() == input.take(i as int).to_multiset(),
                runs_along(sorted@, direction),
        {
            let p = points[i];
            let m = sorted.len();
            let mut k: usize = 0;
            while k < m && no_further(sorted[k], p, direction)
                invariant
                    m == sorted@.len(),
                    k <= m,
                    forall|j: int| 0 <= j < k ==> along_key(#[trigger] sorted@[j], direction) <= along_key(p, direction),
                decreases m - k,
            {
                k = k + 1;
            }
            proof {
                lemma_slot(sorted@, p, direction, k as int);
                assert(input.take(i + 1).drop_last() =~= input.take(i as int));
                assert(input.take(i + 1).last() == p);
                assert(input.take(i + 1) =~= input.take(i as int).push(p));
                vstd::seq_lib::to_multiset_build(input.take(i as int), p);
            }
            let ghost before = sorted@;
            sorted.insert(k, p);
            proof {
                assert(sorted@ == before.insert(k as int, p));
                vstd::seq_lib::to_multiset_insert(before, k as int, p);
                assert(input.take(i as int).push(p).to_multiset() == input.take(i as int).to_multiset().insert(p));
                assert forall|a: int, b: int| 0 <= a < b < sorted@.len() implies along_key(#[trigger] sorted@[a], direction)
                    <= along_key(#[trigger] sorted@[b], direction) by {
                    if a < k && b < k {
                        assert(sorted@[a] == before[a] && sorted@[b] == before[b]);
                    } else if a < k && b == k {
                        assert(sorted@[a] == before[a]);
                    } else if a < k {
                        assert(sorted@[a] == before[a] && sorted@[b] == before[b - 1]);
                    } else if a == k {
                        assert(sorted@[b] == before[b - 1]);
                        assert(along_key(before[k as int], direction) > along_key(p, direction));
                        if b - 1 > k {
                            assert(along_key(before[k as int], direction) <= along_key(before[b - 1], direction));
                        }
                    } else {
                        assert(sorted@[a] == before[a - 1] && sorted@[b] == before[b - 1]);
                    }
                }
            }
        }
        proof {
            assert(input.take(n as int) =~= input);
        }
        *points = sorted;
    }

    /// Adds, along each line, an edge between each pair of consecutive graph
    /// points on it (sorted along the line), weighted by their distance;
    /// `node_points` gives the point of each node by number.
    pub fn add_edges_along_lead_lines(&self, graph: &mut RoutingGraph, lead_lines: &[LeadLine], node_points: &Vec<Point>)
        requires
            points_fit(node_points@),
        ensures
            final(graph).nodes@ == old(graph).nodes@,
            final(graph).edges@ == old(graph).edges@ + line_edges(lead_lines@, node_points@),
    {
        let ghost pts = node_points@;
        let ghost lines = lead_lines@;
        let n = lead_lines.len();
        for li in 0..n
            invariant
                n == lines.len(),
                lines == lead_lines@,
                pts == node_points@,
                points_fit(pts),
                graph.nodes@ == old(graph).nodes@,
                graph.edges@ == old(graph).edges@ + line_edges(lines.take(li as int), pts),
        {
            let line = &lead_lines[li];
            let mut on: Vec<Point> = Vec::new();
            let np = node_points.len();
            for k in 0..np
                invariant
                    np == pts.len(),
                    pts == node_points@,
                    points_fit(pts),
                    on@ == on_line_points(pts.take(k as int), *line),
                    forall|j: int| 0 <= j < on@.len() ==> on_line(*line, #[trigger] on@[j]) && on@[j].x <= i32::MAX && on@[j].y
                        <= i32::MAX,
            {
                proof {
                    assert(pts.take(k + 1).drop_last() =~= pts.take(k as int));
                    assert(pts[k as int].x <= i32::MAX);
                }
                let p = node_points[k];
                if line.contains_point(&p) {
                    on.push(p);
                }
            }
            proof {
                assert(pts.take(np as int) =~= pts);
            }
            let ghost unsorted = on@;
            self.sort_points_along_line(&mut on, line.direction);
            let ghost s = on@;
            proof {
                assert forall|j: int| 0 <= j < s.len() implies on_line(*line, #[trigger] s[j]) && s[j].x <= i32::MAX && s[j].y
                    <= i32::MAX by {
                    assert(s.contains(s[j]));
                    vstd::seq_lib::to_multiset_contains(s, s[j]);
                    vstd::seq_lib::to_multiset_contains(unsorted, s[j]);
                    let q = choose|q: int| 0 <= q < unsorted.len() && unsorted[q] == s[j];
                    assert(on_line(*line, unsorted[q]));
                }
                assert(lines.take(li + 1).drop_last() =~= lines.take(li as int));
                assert(lines.take(li + 1).last() == *line);
            }
            let ghost base = graph.edges@;
            let m = on.len();
            if m >= 2 {
                for i in 0..m - 1
                    invariant
                        m == s.len(),
                        m >= 2,
                        s == on@,
                        pts == node_points@,
                        forall|j: int| 0 <= j < s.len() ==> on_line(*line, #[trigger] s[j]) && s[j].x <= i32::MAX && s[j].y
                            <= i32::MAX,
                        graph.nodes@ == old(graph).nodes@,
                        graph.edges@ == base + chain_edges(s.take(i + 1), pts),
                {
                    let a = on[i];
                    let b = on[i + 1];
                    proof {
                        assert(s.take(i + 2).drop_last() =~= s.take(i + 1));
                        assert(s.take(i + 2)[i as int] == a);
                        assert(s.take(i + 2).last() == b);
                        assert(on_line(*line, s[i as int]) && on_line(*line, s[i + 1]));
                    }
                    let fa = find_node(node_points, a);
                    let fb = find_node(node_points, b);
                    match (fa, fb) {
                        (Some(from_id), Some(to_id)) => {
                            let weight = a.manhattan_distance(&b);
                            graph.add_edge(from_id, to_id, weight);
                        },
                        _ => {},
                    }
                }
                proof {
                    assert(s.take(m as int) =~= s);
                }
            } else {
                proof {
                    assert(chain_edges(s, pts) =~= Seq::<RoutingEdge>::empty());
                }
            }
            proof {
                assert(graph.edges@ =~= old(graph).edges@ + line_edges(lines.take(li + 1), pts));
            }
        }
        proof {
            assert(lines.take(n as int) =~= lines);
        }
    }

    /// Stage two: a graph with a node at each point where lead lines end or
    /// cross (numbered in the order of `graph_points`), and an edge between
    /// consecutive nodes along each line.
    pub fn build_routing_graph(&self, lead_lines: &[LeadLine]) -> (r: RoutingGraph)
        requires
            points_fit(graph_points(lead_lines@)),
        ensures
            r.nodes@ == nodes_at(graph_points(lead_lines@)),
            r.edges@ == line_edges(lead_lines@, graph_points(lead_lines@)),
    {
        let mut graph = RoutingGraph::new();
        let intersections = self.find_all_intersections(lead_lines);
        let ghost pts = intersections@;
        let n = intersections.len();
        for i in 0..n
            invariant
                n == pts.len(),
                pts == intersections@,
                graph.nodes@.dom().finite(),
                graph.nodes@.len() == i,
                graph.nodes@ == nodes_at(pts.take(i as int)),
                graph.edges@ == Seq::<RoutingEdge>::empty(),
        {
            let id = graph.add_node(intersections[i]);
            proof {
                assert(id == i);
                assert(!nodes_at(pts.take(i as int)).dom().contains(i));
                assert(graph.nodes@ =~= nodes_at(pts.take(i + 1)));
            }
        }
        proof {
            assert(pts.take(n as int) =~= pts);
        }
        self.add_edges_along_lead_lines(&mut graph, lead_lines, &intersections);
        graph
    }
}

} // verus!
