//! Lead lines: straight lines that leave an entity from the middle of an
//! edge (or from its center) and run until they meet another entity or
//! the canvas border.

use super::collision::{collisions_of, expandable, nearest, sat_sub, CollisionData, CollisionDetector, CollisionRange};
use super::{Point, Rectangle};
use vstd::prelude::*;

verus! {

/// Identifier of an entity for routing.
#[derive(Debug, Eq, Hash)]
pub struct EntityId(String);

impl PartialEq for EntityId {
    fn eq(&self, other: &Self) -> (r: bool) {
        self.same_as(other)
    }
}

impl vstd::std_specs::cmp::PartialEqSpecImpl for EntityId {
    open spec fn obeys_eq_spec() -> bool {
        true
    }

    open spec fn eq_spec(&self, other: &Self) -> bool {
        self@ == other@
    }
}

/// Two identifiers are equal exactly when their texts are: an identifier
/// made from a text gives that text back, and `==` compares the texts.
pub proof fn lemma_id_equality(a: EntityId, b: EntityId)
    ensures
        vstd::std_specs::cmp::PartialEqSpec::eq_spec(&a, &b) <==> a@ == b@,
{
}

impl View for EntityId {
    type V = Seq<char>;

    closed spec fn view(&self) -> Seq<char> {
        self.0@
    }
}

impl Clone for EntityId {
    fn clone(&self) -> (r: Self)
        ensures
            r@ == self@,
    {
        EntityId(self.0.clone())
    }
}

impl EntityId {
    /// Creates an identifier holding `id`.
    pub fn new(id: &str) -> (r: Self)
        ensures
            r@ == id@,
    {
        EntityId(id.to_owned())
    }

    /// The identifier's text.
    pub fn as_str(&self) -> (r: &str)
        ensures
            r@ == self@,
    {
        self.0.as_str()
    }

    /// Whether two identifiers hold the same text.
    pub fn same_as(&self, other: &EntityId) -> (r: bool)
        ensures
            r == (self@ == other@),
    {
        crate::infrastructure::text::str_equal(self.0.as_str(), other.0.as_str())
    }
}

/// A lead line.
#[derive(Debug, Clone)]
pub struct LeadLine {
    /// Where it starts.
    pub start: Point,
    /// Where it ends.
    pub end: Point,
    /// Which way it goes.
    pub direction: LeadDirection,
    /// The entity it leaves.
    pub source_entity_id: EntityId,
}

/// Direction of a lead line.
#[derive(Debug, Clone, Copy, PartialEq, Eq, Structural, Hash)]
pub enum LeadDirection {
    /// Up.
    North,
    /// Right.
    East,
    /// Down.
    South,
    /// Left.
    West,
}

/// Where a lead line leaves an entity.
#[derive(Debug, Clone, Copy, PartialEq, Eq, Structural, Hash)]
pub enum LeadOrigin {
    /// Middle of the top edge.
    TopCenter,
    /// Middle of the right edge.
    RightCenter,
    /// Middle of the bottom edge.
    BottomCenter,
    /// Middle of the left edge.
    LeftCenter,
    /// Center, going up.
    CenterNorth,
    /// Center, going right.
    CenterEast,
    /// Center, going down.
    CenterSouth,
    /// Center, going left.
    CenterWest,
}

/// The direction a lead line from `o` goes.
pub open spec fn origin_direction(o: LeadOrigin) -> LeadDirection {
    match o {
        LeadOrigin::TopCenter | LeadOrigin::CenterNorth => LeadDirection::North,
        LeadOrigin::RightCenter | LeadOrigin::CenterEast => LeadDirection::East,
        LeadOrigin::BottomCenter | LeadOrigin::CenterSouth => LeadDirection::South,
        LeadOrigin::LeftCenter | LeadOrigin::CenterWest => LeadDirection::West,
    }
}

/// Whether `o` leaves from the entity's center.
pub open spec fn from_center(o: LeadOrigin) -> bool {
    o is CenterNorth || o is CenterEast || o is CenterSouth || o is CenterWest
}

impl LeadOrigin {
    /// The direction a lead line from this origin goes.
    pub fn direction(&self) -> (r: LeadDirection)
        ensures
            r == origin_direction(*self),
    {
        match self {
            LeadOrigin::TopCenter | LeadOrigin::CenterNorth => LeadDirection::North,
            LeadOrigin::RightCenter | LeadOrigin::CenterEast => LeadDirection::East,
            LeadOrigin::BottomCenter | LeadOrigin::CenterSouth => LeadDirection::South,
            LeadOrigin::LeftCenter | LeadOrigin::CenterWest => LeadDirection::West,
        }
    }

    /// Whether this origin is the entity's center.
    pub fn is_center(&self) -> (r: bool)
        ensures
            r == from_center(*self),
    {
        match self {
            LeadOrigin::CenterNorth | LeadOrigin::CenterEast | LeadOrigin::CenterSouth | LeadOrigin::CenterWest => true,
            _ => false,
        }
    }

    /// The four edge origins: top, right, bottom, left.
    pub fn all() -> (r: [Self; 4])
        ensures
            r@ == seq![LeadOrigin::TopCenter, LeadOrigin::RightCenter, LeadOrigin::BottomCenter, LeadOrigin::LeftCenter],
    {
        let r = [LeadOrigin::TopCenter, LeadOrigin::RightCenter, LeadOrigin::BottomCenter, LeadOrigin::LeftCenter];
        assert(r@ =~= seq![r[0], r[1], r[2], r[3]]);
        r
    }
}

/// The point a lead line from origin `o` of `b` starts at.
pub open spec fn start_point(b: Rectangle, o: LeadOrigin) -> Point {
    let cx = (b.x + b.width / 2) as u32;
    let cy = (b.y + b.height / 2) as u32;
    match o {
        LeadOrigin::TopCenter => Point { x: cx, y: b.y },
        LeadOrigin::RightCenter => Point { x: (b.x + b.width) as u32, y: cy },
        LeadOrigin::BottomCenter => Point { x: cx, y: (b.y + b.height) as u32 },
        LeadOrigin::LeftCenter => Point { x: b.x, y: cy },
        _ => Point { x: cx, y: cy },
    }
}

/// An entity that lead lines leave from.
#[derive(Debug, Clone)]
pub struct RoutingEntity {
    /// Its identifier.
    pub id: EntityId,
    /// Its bounds.
    pub bounds: Rectangle,
}

impl RoutingEntity {
    /// Creates a routing entity.
    pub fn new(id: EntityId, bounds: Rectangle) -> (r: Self)
        ensures
            r.id@ == id@,
            r.bounds == bounds,
    {
        RoutingEntity { id, bounds }
    }

    /// The point a lead line from `origin` starts at: the middle of that
    /// edge, or the center.
    pub fn lead_line_start(&self, origin: LeadOrigin) -> (r: Point)
        requires
            self.bounds.fits(),
        ensures
            r == start_point(self.bounds, origin),
    {
        let center_x = self.bounds.x + self.bounds.width / 2;
        let center_y = self.bounds.y + self.bounds.height / 2;
        match origin {
            LeadOrigin::TopCenter => Point::new(center_x, self.bounds.y),
            LeadOrigin::RightCenter => Point::new(self.bounds.right(), center_y),
            LeadOrigin::BottomCenter => Point::new(center_x, self.bounds.bottom()),
            LeadOrigin::LeftCenter => Point::new(self.bounds.x, center_y),
            LeadOrigin::CenterNorth => Point::new(center_x, center_y),
            LeadOrigin::CenterEast => Point::new(center_x, center_y),
            LeadOrigin::CenterSouth => Point::new(center_x, center_y),
            LeadOrigin::CenterWest => Point::new(center_x, center_y),
        }
    }
}

/// Configuration for lead line generation.
#[derive(Debug, Clone)]
pub struct LeadLineConfig {
    /// Margin kept around entities.
    pub margin: u32,
    /// How far a lead line goes at least before it may turn.
    pub min_lead_extension: u32,
    /// The canvas; lead lines stay inside it.
    pub canvas_bounds: Rectangle,
}

impl Default for LeadLineConfig {
    fn default() -> (r: Self)
        ensures
            r.margin == 10,
            r.min_lead_extension == 30,
            r.canvas_bounds == (Rectangle { x: 0, y: 0, width: 5000, height: 3000 }),
    {
        LeadLineConfig { margin: 10, min_lead_extension: 30, canvas_bounds: Rectangle::new(0, 0, 5000, 3000) }
    }
}

/// Where a lead line hit something.
#[derive(Debug, Clone)]
pub struct CollisionResult {
    /// The point of the collision.
    pub collision_point: Point,
    /// The entity hit, if any.
    pub hit_entity: Option<EntityId>,
}

/// `p` moved by `margin` in direction `d` (not below 0).
pub open spec fn moved(p: Point, d: LeadDirection, margin: u32) -> Point {
    match d {
        LeadDirection::North => Point { x: p.x, y: if p.y >= margin { (p.y - margin) as u32 } else { 0 } },
        LeadDirection::East => Point { x: (p.x + margin) as u32, y: p.y },
        LeadDirection::South => Point { x: p.x, y: (p.y + margin) as u32 },
        LeadDirection::West => Point { x: if p.x >= margin { (p.x - margin) as u32 } else { 0 }, y: p.y },
    }
}

/// The collision data for a lead line from `origin` of `b` that starts at
/// `start`, on `canvas`.
pub open spec fn collision_data_for(b: Rectangle, origin: LeadOrigin, start: Point, canvas: Rectangle) -> CollisionData {
    let d = origin_direction(origin);
    let center = Point { x: (b.x + b.width / 2) as u32, y: (b.y + b.height / 2) as u32 };
    let start_point = if from_center(origin) {
        if d is North || d is South { center.y } else { center.x }
    } else {
        match d {
            LeadDirection::North => b.y,
            LeadDirection::South => (b.y + b.height) as u32,
            LeadDirection::East => (b.x + b.width) as u32,
            LeadDirection::West => b.x,
        }
    };
    let right = (canvas.x + canvas.width) as u32;
    let bottom = (canvas.y + canvas.height) as u32;
    let (end_x, end_y, maximum) = match d {
        LeadDirection::North => (start.x, canvas.y, bottom),
        LeadDirection::South => (start.x, bottom, bottom),
        LeadDirection::East => (right, start.y, right),
        LeadDirection::West => (canvas.x, start.y, right),
    };
    CollisionData {
        start_point,
        start_x: start.x,
        start_y: start.y,
        end_x,
        end_y,
        maximum,
        opposite_side: None,
        is_vertical: d is North || d is South,
    }
}

/// A lead line as the specifications see it: start, end, direction and
/// the id of the entity it leaves.
pub open spec fn lead_view(l: LeadLine) -> (Point, Point, LeadDirection, Seq<char>) {
    (l.start, l.end, l.direction, l.source_entity_id@)
}

/// The views of lead lines.
pub open spec fn lead_views(v: Seq<LeadLine>) -> Seq<(Point, Point, LeadDirection, Seq<char>)> {
    v.map_values(|l: LeadLine| lead_view(l))
}

/// Where a lead line from `origin` of `b` really starts: `margin` outside
/// the entity (from the edge it leaves, also for lines from the centre).
pub open spec fn lead_start(b: Rectangle, origin: LeadOrigin, margin: u32) -> Point {
    let start = start_point(b, origin);
    let d = origin_direction(origin);
    if !from_center(origin) {
        moved(start, d, margin)
    } else {
        match d {
            LeadDirection::North => Point { x: start.x, y: sat_sub(b.y, margin) },
            LeadDirection::South => Point { x: start.x, y: (b.y + b.height + margin) as u32 },
            LeadDirection::East => Point { x: (b.x + b.width + margin) as u32, y: start.y },
            LeadDirection::West => Point { x: sat_sub(b.x, margin), y: start.y },
        }
    }
}

/// The collision data for the part of a lead line beyond its minimum
/// extension, which starts at `from`.
pub open spec fn extended_data(data: CollisionData, from: Point, d: LeadDirection) -> CollisionData {
    CollisionData {
        start_point: if d is North || d is South { from.y } else { from.x },
        start_x: from.x,
        start_y: from.y,
        end_x: data.end_x,
        end_y: data.end_y,
        maximum: data.maximum,
        opposite_side: data.opposite_side,
        is_vertical: data.is_vertical,
    }
}

/// Where the rest of a lead line ends: at its far end when nothing is in
/// the way, else where it meets the nearest entity.
pub open spec fn rest_end(data: CollisionData, ranges: Seq<CollisionRange>) -> Point {
    if ranges.len() == 0 {
        Point { x: data.end_x, y: data.end_y }
    } else if data.is_vertical {
        Point { x: data.start_x, y: nearest(data, ranges) }
    } else {
        Point { x: nearest(data, ranges), y: data.start_y }
    }
}

/// The lead lines from `origin` of entity (`id`, `b`) among `all`: the
/// minimum extension out of the entity's margin, then, unless it is empty,
/// the rest up to the nearest entity in the way or the canvas border.
pub open spec fn origin_lines(
    cfg: LeadLineConfig,
    id: Seq<char>,
    b: Rectangle,
    origin: LeadOrigin,
    all: Seq<(EntityId, Rectangle)>,
) -> Seq<(Point, Point, LeadDirection, Seq<char>)> {
    let d = origin_direction(origin);
    let start = lead_start(b, origin, cfg.margin);
    let min_point = moved(start, d, cfg.min_lead_extension);
    let hits = collisions_of(all, d, min_point, id, cfg.margin);
    let ranges = hits.map_values(|h: (Seq<char>, (u32, u32))| CollisionRange { start: h.1.0, end: h.1.1 });
    let data = extended_data(collision_data_for(b, origin, start, cfg.canvas_bounds), min_point, d);
    let end = rest_end(data, ranges);
    seq![(start, min_point, d, id)] + if min_point != end {
        seq![(min_point, end, d, id)]
    } else {
        Seq::empty()
    }
}

/// Collision detection reads only the entities' ids' text and bounds.
pub proof fn lemma_collisions_by_view(a: Seq<(EntityId, Rectangle)>, b: Seq<(EntityId, Rectangle)>)
    requires
        a.len() == b.len(),
        forall|k: int| 0 <= k < a.len() ==> (#[trigger] a[k]).0@ == b[k].0@ && a[k].1 == b[k].1,
    ensures
        forall|d: LeadDirection, st: Point, src: Seq<char>, m: u32| #[trigger] collisions_of(a, d, st, src, m) == collisions_of(b, d, st, src, m),
    decreases a.len(),
{
    if a.len() > 0 {
        lemma_collisions_by_view(a.drop_last(), b.drop_last());
        assert forall|d: LeadDirection, st: Point, src: Seq<char>, m: u32| #[trigger] collisions_of(a, d, st, src, m) == collisions_of(b, d, st, src, m) by {
            assert(a.last().0@ == b.last().0@);
            assert(collisions_of(a.drop_last(), d, st, src, m) == collisions_of(b.drop_last(), d, st, src, m));
        }
    }
}

/// Whether lead lines from `b` stay within machine numbers.
pub open spec fn lead_room(b: Rectangle, cfg: LeadLineConfig) -> bool {
    &&& b.fits()
    &&& b.x + b.width + cfg.margin + cfg.min_lead_extension <= u32::MAX
    &&& b.y + b.height + cfg.margin + cfg.min_lead_extension <= u32::MAX
}

/// The entities with their bounds, for collision detection.
pub open spec fn bounds_of(entities: Seq<RoutingEntity>) -> Seq<(EntityId, Rectangle)> {
    entities.map_values(|e: RoutingEntity| (e.id, e.bounds))
}

/// The lead lines of all entities: for each entity, from the top, right,
/// bottom and left edge in turn.
pub open spec fn all_lead_lines(cfg: LeadLineConfig, entities: Seq<RoutingEntity>) -> Seq<(Point, Point, LeadDirection, Seq<char>)> {
    Seq::new(
        entities.len(),
        |i: int|
            Seq::new(
                4,
                |k: int|
                    origin_lines(
                        cfg,
                        entities[i].id@,
                        entities[i].bounds,
                        seq![LeadOrigin::TopCenter, LeadOrigin::RightCenter, LeadOrigin::BottomCenter, LeadOrigin::LeftCenter][k],
                        bounds_of(entities),
                    ),
            ).flatten(),
    ).flatten()
}

/// Generates lead lines for routing.
pub struct LeadLineGenerator {
    config: LeadLineConfig,
    collision_detector: CollisionDetector,
}

impl LeadLineGenerator {
    /// The configuration in use.
    pub closed spec fn configuration(&self) -> LeadLineConfig {
        self.config
    }

    /// The generator's collision detector uses the configured margin.
    pub closed spec fn consistent(&self) -> bool {
        self.collision_detector.margin_of() == self.config.margin
    }

    /// Creates a generator for `config`.
    pub fn new(config: LeadLineConfig) -> (r: Self)
        ensures
            r.configuration().margin == config.margin,
            r.configuration().min_lead_extension == config.min_lead_extension,
            r.configuration().canvas_bounds == config.canvas_bounds,
            r.consistent(),
    {
        let collision_detector = CollisionDetector::new(config.margin);
        LeadLineGenerator { config, collision_detector }
    }

    fn create_collision_data(&self, entity: &RoutingEntity, origin: LeadOrigin, start: Point) -> (r: CollisionData)
        requires
            entity.bounds.fits(),
            self.configuration().canvas_bounds.fits(),
        ensures
            r == collision_data_for(entity.bounds, origin, start, self.configuration().canvas_bounds),
    {
        let direction = origin.direction();
        let is_vertical = match direction {
            LeadDirection::North | LeadDirection::South => true,
            _ => false,
        };
        let start_point = if origin.is_center() {
            let center = entity.bounds.center();
            match direction {
                LeadDirection::North | LeadDirection::South => center.y,
                LeadDirection::East | LeadDirection::West => center.x,
            }
        } else {
            match direction {
                LeadDirection::North => entity.bounds.y,
                LeadDirection::South => entity.bounds.bottom(),
                LeadDirection::East => entity.bounds.right(),
                LeadDirection::West => entity.bounds.x,
            }
        };
        let canvas = &self.config.canvas_bounds;
        let (end_x, end_y, maximum) = match direction {
            LeadDirection::North => (start.x, canvas.y, canvas.bottom()),
            LeadDirection::South => (start.x, canvas.bottom(), canvas.bottom()),
            LeadDirection::East => (canvas.right(), start.y, canvas.right()),
            LeadDirection::West => (canvas.x, start.y, canvas.right()),
        };
        CollisionData {
            start_point,
            start_x: start.x,
            start_y: start.y,
            end_x,
            end_y,
            maximum,
            opposite_side: None,
            is_vertical,
        }
    }

    fn apply_margin_offset(&self, point: Point, direction: LeadDirection, margin: u32) -> (r: Point)
        requires
            direction is East ==> point.x + margin <= u32::MAX,
            direction is South ==> point.y + margin <= u32::MAX,
        ensures
            r == moved(point, direction, margin),
    {
        match direction {
            LeadDirection::North => Point::new(point.x, if point.y >= margin { point.y - margin } else { 0 }),
            LeadDirection::East => Point::new(point.x + margin, point.y),
            LeadDirection::South => Point::new(point.x, point.y + margin),
            LeadDirection::West => Point::new(if point.x >= margin { point.x - margin } else { 0 }, point.y),
        }
    }

    /// Generates lead lines from a specific origin on an entity.
    fn generate_lead_lines_from_origin(
        &self,
        entity: &RoutingEntity,
        origin: LeadOrigin,
        all_entities: &[(EntityId, Rectangle)],
    ) -> (r: Vec<LeadLine>)
        requires
            self.consistent(),
            lead_room(entity.bounds, self.configuration()),
            self.configuration().canvas_bounds.fits(),
            forall|i: int| 0 <= i < all_entities@.len() ==> expandable(#[trigger] all_entities@[i].1, self.configuration().margin),
        ensures
            lead_views(r@) == origin_lines(self.configuration(), entity.id@, entity.bounds, origin, all_entities@),
    {
        let ghost cfg = self.configuration();
        let mut lead_lines: Vec<LeadLine> = Vec::new();
        let start = entity.lead_line_start(origin);
        let direction = origin.direction();
        let margin = self.config.margin;
        let adjusted_start = if !origin.is_center() {
            self.apply_margin_offset(start, direction, margin)
        } else {
            match direction {
                LeadDirection::North => Point::new(
                    start.x,
                    if entity.bounds.y >= margin { entity.bounds.y - margin } else { 0 },
                ),
                LeadDirection::South => Point::new(start.x, entity.bounds.bottom() + margin),
                LeadDirection::East => Point::new(entity.bounds.right() + margin, start.y),
                LeadDirection::West => Point::new(
                    if entity.bounds.x >= margin { entity.bounds.x - margin } else { 0 },
                    start.y,
                ),
            }
        };
        assert(adjusted_start == lead_start(entity.bounds, origin, cfg.margin));
        let min_extension_point = self.apply_margin_offset(adjusted_start, direction, self.config.min_lead_extension);
        let collisions = self.collision_detector.detect_collisions(direction, min_extension_point, all_entities, &entity.id);
        let collision_data = self.create_collision_data(entity, origin, adjusted_start);
        let mut collision_ranges: Vec<CollisionRange> = Vec::new();
        let ghost hits = collisions_of(all_entities@, direction, min_extension_point, entity.id@, cfg.margin);
        let ghost ranges = hits.map_values(|h: (Seq<char>, (u32, u32))| CollisionRange { start: h.1.0, end: h.1.1 });
        let nc = collisions.len();
        for k in 0..nc
            invariant
                nc == collisions@.len(),
                collisions@.map_values(|c: (EntityId, CollisionRange)| (c.0@, (c.1.start, c.1.end))) == hits,
                ranges == hits.map_values(|h: (Seq<char>, (u32, u32))| CollisionRange { start: h.1.0, end: h.1.1 }),
                collision_ranges@ == ranges.take(k as int),
        {
            collision_ranges.push(collisions[k].1);
            assert(ranges.take(k + 1) =~= ranges.take(k as int).push(ranges[k as int]));
            assert(hits[k as int] == (collisions@[k as int].0@, (collisions@[k as int].1.start, collisions@[k as int].1.end)));
        }
        assert(ranges.take(nc as int) =~= ranges);
        let extended_collision_data = CollisionData {
            start_point: match direction {
                LeadDirection::North | LeadDirection::South => min_extension_point.y,
                LeadDirection::East | LeadDirection::West => min_extension_point.x,
            },
            start_x: min_extension_point.x,
            start_y: min_extension_point.y,
            end_x: collision_data.end_x,
            end_y: collision_data.end_y,
            maximum: collision_data.maximum,
            opposite_side: collision_data.opposite_side,
            is_vertical: collision_data.is_vertical,
        };
        let segments = self.collision_detector.process_collisions(&extended_collision_data, collision_ranges.as_slice());
        lead_lines.push(
            LeadLine { start: adjusted_start, end: min_extension_point, direction, source_entity_id: entity.id.clone() },
        );
        let (segment_start, segment_end) = segments[0];
        if segment_start != segment_end {
            lead_lines.push(
                LeadLine { start: segment_start, end: segment_end, direction, source_entity_id: entity.id.clone() },
            );
        }
        proof {
            let data = extended_data(collision_data_for(entity.bounds, origin, adjusted_start, cfg.canvas_bounds), min_extension_point, direction);
            assert(extended_collision_data == data);
            assert(segment_end == rest_end(data, ranges));
            assert(lead_views(lead_lines@) =~= origin_lines(cfg, entity.id@, entity.bounds, origin, all_entities@));
        }
        lead_lines
    }

    /// Generates all lead lines for the given entities: for each entity,
    /// from its top, right, bottom and left edges.
    pub fn generate_lead_lines(&self, entities: &[RoutingEntity]) -> (r: Vec<LeadLine>)
        requires
            self.consistent(),
            self.configuration().canvas_bounds.fits(),
            forall|i: int| 0 <= i < entities@.len() ==> lead_room((#[trigger] entities@[i]).bounds, self.configuration()),
            forall|i: int| 0 <= i < entities@.len() ==> expandable((#[trigger] entities@[i]).bounds, self.configuration().margin),
        ensures
            lead_views(r@) == all_lead_lines(self.configuration(), entities@),
    {
        let ghost cfg = self.configuration();
        let mut entity_bounds: Vec<(EntityId, Rectangle)> = Vec::new();
        let n = entities.len();
        for i in 0..n
            invariant
                n == entities@.len(),
                entity_bounds@.len() == i,
                forall|k: int| 0 <= k < i ==> (#[trigger] entity_bounds@[k]).0@ == entities@[k].id@ && entity_bounds@[k].1 == entities@[k].bounds,
        {
            entity_bounds.push((entities[i].id.clone(), entities[i].bounds));
        }
        assert forall|k: int| 0 <= k < entity_bounds@.len() implies expandable(#[trigger] entity_bounds@[k].1, cfg.margin) by {
            assert(entity_bounds@[k].1 == entities@[k].bounds);
        }
        let ghost all = bounds_of(entities@);
        proof {
            lemma_collisions_by_view(entity_bounds@, all);
        }
        let origins = LeadOrigin::all();
        let ghost os = seq![LeadOrigin::TopCenter, LeadOrigin::RightCenter, LeadOrigin::BottomCenter, LeadOrigin::LeftCenter];
        let mut lead_lines: Vec<LeadLine> = Vec::new();
        let mut i: usize = 0;
        assert(lead_views(lead_lines@) =~= Seq::new(0, |q: int| Seq::new(4, |k: int| origin_lines(cfg, entities@[q].id@, entities@[q].bounds, os[k], all)).flatten()).flatten());
        while i < n
            invariant
                n == entities@.len(),
                cfg == self.configuration(),
                self.consistent(),
                self.configuration().canvas_bounds.fits(),
                forall|i: int| 0 <= i < entities@.len() ==> lead_room((#[trigger] entities@[i]).bounds, cfg),
                all == bounds_of(entities@),
                entity_bounds@.len() == n,
                forall|k: int| 0 <= k < n ==> (#[trigger] entity_bounds@[k]).0@ == entities@[k].id@ && entity_bounds@[k].1 == entities@[k].bounds,
                forall|k: int| 0 <= k < entity_bounds@.len() ==> expandable(#[trigger] entity_bounds@[k].1, cfg.margin),
                forall|d: LeadDirection, st: Point, src: Seq<char>, m: u32| #[trigger] collisions_of(entity_bounds@, d, st, src, m) == collisions_of(all, d, st, src, m),
                origins@ == os,
                i <= n,
                lead_views(lead_lines@) == Seq::new(i as nat, |q: int| Seq::new(4, |k: int| origin_lines(cfg, entities@[q].id@, entities@[q].bounds, os[k], all)).flatten()).flatten(),
            decreases n - i,
        {
            let ghost base = lead_views(lead_lines@);
            let ghost per = |k: int| origin_lines(cfg, entities@[i as int].id@, entities@[i as int].bounds, os[k], all);
            let mut k: usize = 0;
            assert(base + Seq::new(0, per).flatten() =~= base);
            while k < 4
                invariant
                    n == entities@.len(),
                    i < n,
                    cfg == self.configuration(),
                    self.consistent(),
                    self.configuration().canvas_bounds.fits(),
                    lead_room(entities@[i as int].bounds, cfg),
                    entity_bounds@.len() == n,
                    forall|k: int| 0 <= k < entity_bounds@.len() ==> expandable(#[trigger] entity_bounds@[k].1, cfg.margin),
                    forall|d: LeadDirection, st: Point, src: Seq<char>, m: u32| #[trigger] collisions_of(entity_bounds@, d, st, src, m) == collisions_of(all, d, st, src, m),
                    origins@ == os,
                    per == (|k: int| origin_lines(cfg, entities@[i as int].id@, entities@[i as int].bounds, os[k], all)),
                    k <= 4,
                    lead_views(lead_lines@) == base + Seq::new(k as nat, per).flatten(),
                decreases 4 - k,
            {
                let mut lines = self.generate_lead_lines_from_origin(&entities[i], origins[k], entity_bounds.as_slice());
                let ghost before = lead_views(lead_lines@);
                let ghost piece = lead_views(lines@);
                assert(piece == per(k as int));
                lead_lines.append(&mut lines);
                proof {
                    assert(lead_views(lead_lines@) =~= before + piece);
                    let prev = Seq::new(k as nat, per);
                    prev.lemma_flatten_push(piece);
                    assert(Seq::new((k + 1) as nat, per) =~= prev.push(piece));
                    assert(before + piece =~= base + (prev.flatten() + piece));
                }
                k += 1;
            }
            proof {
                let outer = |q: int| Seq::new(4, |k: int| origin_lines(cfg, entities@[q].id@, entities@[q].bounds, os[k], all)).flatten();
                let prev = Seq::new(i as nat, outer);
                assert(Seq::new(4, per) =~= Seq::new(4, |k: int| origin_lines(cfg, entities@[i as int].id@, entities@[i as int].bounds, os[k], all)));
                prev.lemma_flatten_push(outer(i as int));
                assert(Seq::new((i + 1) as nat, outer) =~= prev.push(outer(i as int)));
            }
            i += 1;
        }
        lead_lines
    }
}

} // verus!
