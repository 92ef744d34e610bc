//! Which entities a lead line runs into, and where it has to stop.

use super::lead_lines::{EntityId, LeadDirection};
use super::{Point, Rectangle};
use vstd::prelude::*;

verus! {

/// What the collision processing needs to know about a lead line.
#[derive(Debug, Clone)]
pub struct CollisionData {
    /// Coordinate along the line's axis where it starts.
    pub start_point: u32,
    /// Start x.
    pub start_x: u32,
    /// Start y.
    pub start_y: u32,
    /// End x when nothing is in the way.
    pub end_x: u32,
    /// End y when nothing is in the way.
    pub end_y: u32,
    /// Furthest coordinate the line may reach.
    pub maximum: u32,
    /// Coordinate of the opposite side, for lines from an entity's center.
    pub opposite_side: Option<u32>,
    /// Whether the line is vertical.
    pub is_vertical: bool,
}

/// The span of an entity along a lead line's axis.
#[derive(Debug, Clone, Copy)]
pub struct CollisionRange {
    /// Where the span starts.
    pub start: u32,
    /// Where it ends.
    pub end: u32,
}

impl CollisionRange {
    /// Creates a new range.
    pub fn new(start: u32, end: u32) -> (r: Self)
        ensures
            r.start == start,
            r.end == end,
    {
        CollisionRange { start, end }
    }
}

/// `a - b`, or 0 when `b` is larger.
pub open spec fn sat_sub(a: u32, b: u32) -> u32 {
    if a >= b {
        (a - b) as u32
    } else {
        0
    }
}

/// The bounds of an entity grown by `margin` on every side (clamped at 0
/// on the top and left).
pub open spec fn expanded(b: Rectangle, margin: u32) -> Rectangle {
    Rectangle {
        x: sat_sub(b.x, margin),
        y: sat_sub(b.y, margin),
        width: (b.width + 2 * margin) as u32,
        height: (b.height + 2 * margin) as u32,
    }
}

/// The bounds can be grown by `margin` without leaving 32 bits.
pub open spec fn expandable(b: Rectangle, margin: u32) -> bool {
    &&& b.width + 2 * margin <= u32::MAX
    &&& b.height + 2 * margin <= u32::MAX
    &&& expanded(b, margin).fits()
}

/// The span of `bounds` that a lead line from `start` in `direction` runs
/// into, if it runs into it.
pub open spec fn collision_range(direction: LeadDirection, start: Point, bounds: Rectangle) -> Option<(u32, u32)> {
    let right = bounds.x + bounds.width;
    let bottom = bounds.y + bounds.height;
    match direction {
        LeadDirection::North => if start.x >= bounds.x && start.x <= right && bounds.y < start.y {
            Some((bounds.y, bottom as u32))
        } else {
            None
        },
        LeadDirection::South => if start.x >= bounds.x && start.x <= right && bottom > start.y {
            Some((bounds.y, bottom as u32))
        } else {
            None
        },
        LeadDirection::East => if start.y >= bounds.y && start.y <= bottom && bounds.x > start.x {
            Some((bounds.x, right as u32))
        } else {
            None
        },
        LeadDirection::West => if start.y >= bounds.y && start.y <= bottom && right < start.x {
            Some((bounds.x, right as u32))
        } else {
            None
        },
    }
}

/// The entities (other than `source`) that a lead line from `start` in
/// `direction` runs into, with their spans, in order.
pub open spec fn collisions_of(
    entities: Seq<(EntityId, Rectangle)>,
    direction: LeadDirection,
    start: Point,
    source: Seq<char>,
    margin: u32,
) -> Seq<(Seq<char>, (u32, u32))>
    decreases entities.len(),
{
    if entities.len() == 0 {
        Seq::empty()
    } else {
        let rest = collisions_of(entities.drop_last(), direction, start, source, margin);
        let (id, bounds) = entities.last();
        if id@ == source {
            rest
        } else {
            match collision_range(direction, start, expanded(bounds, margin)) {
                Some(range) => rest.push((id@, range)),
                None => rest,
            }
        }
    }
}

/// Whether the span `lo`..`hi` lies ahead of a line from `start` going in
/// `direction`: for a line going east its start is right of `start`, west
/// its end is left of it, south its end is below it, north its start is
/// above it.
pub open spec fn lies_ahead(direction: LeadDirection, start: Point, lo: int, hi: int) -> bool {
    match direction {
        LeadDirection::East => lo > start.x,
        LeadDirection::West => hi < start.x,
        LeadDirection::South => hi > start.y,
        LeadDirection::North => lo < start.y,
    }
}

/// The left, top, width and height of `b` grown by `m` on every side
/// (not past zero on the left and top).
pub open spec fn grown(b: Rectangle, m: int) -> (int, int, int, int) {
    (if b.x >= m { b.x - m } else { 0 }, if b.y >= m { b.y - m } else { 0 }, b.width + 2 * m, b.height + 2 * m)
}

/// Whether a line from `start` in `direction` passes the grown `b` across:
/// a vertical line within its width, a horizontal one within its height.
pub open spec fn passes_across(direction: LeadDirection, start: Point, b: Rectangle, m: int) -> bool {
    let (x, y, w, h) = grown(b, m);
    match direction {
        LeadDirection::North | LeadDirection::South => x <= start.x <= x + w,
        LeadDirection::East | LeadDirection::West => y <= start.y <= y + h,
    }
}

/// The span of the grown `b` along a line in `direction`.
pub open spec fn span_along(direction: LeadDirection, b: Rectangle, m: int) -> (int, int) {
    let (x, y, w, h) = grown(b, m);
    match direction {
        LeadDirection::North | LeadDirection::South => (y, y + h),
        LeadDirection::East | LeadDirection::West => (x, x + w),
    }
}

/// A line runs into the grown `b` exactly when it passes across it and the
/// span lies ahead; the range it reports is that span.
proof fn lemma_range_in_the_way(direction: LeadDirection, start: Point, b: Rectangle, margin: u32)
    requires
        expandable(b, margin),
    ensures
        collision_range(direction, start, expanded(b, margin)) is Some <==> (passes_across(direction, start, b, margin as int)
            && lies_ahead(direction, start, span_along(direction, b, margin as int).0, span_along(direction, b, margin as int).1)),
        collision_range(direction, start, expanded(b, margin)) matches Some(r) ==> (r.0 as int, r.1 as int) == span_along(
            direction,
            b,
            margin as int,
        ),
{
    let g = expanded(b, margin);
    assert(g.x as int == grown(b, margin as int).0);
    assert(g.y as int == grown(b, margin as int).1);
    assert(g.width as int == grown(b, margin as int).2);
    assert(g.height as int == grown(b, margin as int).3);
}

/// Each collision a lead line reports is an entity in its way: not the
/// line's own, passed across by the line (grown by the margin), with its
/// span lying ahead of the line's start.
pub proof fn lemma_collisions_are_in_the_way(
    entities: Seq<(EntityId, Rectangle)>,
    direction: LeadDirection,
    start: Point,
    source: Seq<char>,
    margin: u32,
)
    requires
        forall|i: int| 0 <= i < entities.len() ==> expandable(#[trigger] entities[i].1, margin),
    ensures
        forall|j: int|
            0 <= j < collisions_of(entities, direction, start, source, margin).len() ==> {
                let c = #[trigger] collisions_of(entities, direction, start, source, margin)[j];
                &&& c.0 != source
                &&& lies_ahead(direction, start, c.1.0 as int, c.1.1 as int)
                &&& exists|k: int|
                    0 <= k < entities.len() && (#[trigger] entities[k]).0@ == c.0 && passes_across(
                        direction,
                        start,
                        entities[k].1,
                        margin as int,
                    ) && span_along(direction, entities[k].1, margin as int) == (c.1.0 as int, c.1.1 as int)
            },
    decreases entities.len(),
{
    if entities.len() > 0 {
        let rest = entities.drop_last();
        assert forall|i: int| 0 <= i < rest.len() implies expandable(#[trigger] rest[i].1, margin) by {
            assert(rest[i] == entities[i]);
        }
        lemma_collisions_are_in_the_way(rest, direction, start, source, margin);
        let before = collisions_of(rest, direction, start, source, margin);
        let all = collisions_of(entities, direction, start, source, margin);
        let n = entities.len() - 1;
        assert(entities.last() == entities[n]);
        lemma_range_in_the_way(direction, start, entities[n].1, margin);
        assert forall|j: int| 0 <= j < all.len() implies {
            let c = #[trigger] all[j];
            &&& c.0 != source
            &&& lies_ahead(direction, start, c.1.0 as int, c.1.1 as int)
            &&& exists|k: int|
                0 <= k < entities.len() && (#[trigger] entities[k]).0@ == c.0 && passes_across(
                    direction,
                    start,
                    entities[k].1,
                    margin as int,
                ) && span_along(direction, entities[k].1, margin as int) == (c.1.0 as int, c.1.1 as int)
        } by {
            if j < before.len() {
                assert(all[j] == before[j]);
                let c = before[j];
                let k = choose|k: int|
                    0 <= k < rest.len() && (#[trigger] rest[k]).0@ == c.0 && passes_across(
                        direction,
                        start,
                        rest[k].1,
                        margin as int,
                    ) && span_along(direction, rest[k].1, margin as int) == (c.1.0 as int, c.1.1 as int);
                assert(entities[k] == rest[k]);
            } else {
                assert(entities[n].0@ == all[j].0);
            }
        }
    }
}

/// Every entity in a lead line's way (other than its own) is reported,
/// with its span.
pub proof fn lemma_entities_in_the_way_are_reported(
    entities: Seq<(EntityId, Rectangle)>,
    direction: LeadDirection,
    start: Point,
    source: Seq<char>,
    margin: u32,
)
    requires
        forall|i: int| 0 <= i < entities.len() ==> expandable(#[trigger] entities[i].1, margin),
    ensures
        forall|k: int|
            0 <= k < entities.len() && (#[trigger] entities[k]).0@ != source && passes_across(
                direction,
                start,
                entities[k].1,
                margin as int,
            ) && lies_ahead(
                direction,
                start,
                span_along(direction, entities[k].1, margin as int).0,
                span_along(direction, entities[k].1, margin as int).1,
            ) ==> exists|j: int|
                0 <= j < collisions_of(entities, direction, start, source, margin).len() && (#[trigger] collisions_of(
                    entities,
                    direction,
                    start,
                    source,
                    margin,
                )[j]).0 == entities[k].0@ && (collisions_of(entities, direction, start, source, margin)[j].1.0 as int,
                collisions_of(entities, direction, start, source, margin)[j].1.1 as int) == span_along(
                    direction,
                    entities[k].1,
                    margin as int,
                ),
    decreases entities.len(),
{
    if entities.len() > 0 {
        let rest = entities.drop_last();
        assert forall|i: int| 0 <= i < rest.len() implies expandable(#[trigger] rest[i].1, margin) by {
            assert(rest[i] == entities[i]);
        }
        lemma_entities_in_the_way_are_reported(rest, direction, start, source, margin);
        let before = collisions_of(rest, direction, start, source, margin);
        let all = collisions_of(entities, direction, start, source, margin);
        let n = entities.len() - 1;
        assert(entities.last() == entities[n]);
        lemma_range_in_the_way(direction, start, entities[n].1, margin);
        assert forall|k: int|
            0 <= k < entities.len() && (#[trigger] entities[k]).0@ != source && passes_across(
                direction,
                start,
                entities[k].1,
                margin as int,
            ) && lies_ahead(
                direction,
                start,
                span_along(direction, entities[k].1, margin as int).0,
                span_along(direction, entities[k].1, margin as int).1,
            ) implies exists|j: int|
                0 <= j < all.len() && (#[trigger] all[j]).0 == entities[k].0@ && (all[j].1.0 as int, all[j].1.1 as int)
                    == span_along(direction, entities[k].1, margin as int) by {
            if k < n {
                assert(rest[k] == entities[k]);
                let j = choose|j: int|
                    0 <= j < before.len() && (#[trigger] before[j]).0 == rest[k].0@ && (before[j].1.0 as int, before[j].1.1 as int)
                        == span_along(direction, rest[k].1, margin as int);
                assert(all[j] == before[j]);
            } else {
                assert(all[before.len() as int].0 == entities[k].0@);
            }
        }
    }
}

/// The coordinate where a line described by `data` meets `range`: its
/// near end.
pub open spec fn meeting_point(data: CollisionData, range: CollisionRange) -> u32 {
    if data.is_vertical {
        if data.start_y > range.end { range.end } else { range.start }
    } else {
        if data.start_x > range.end { range.end } else { range.start }
    }
}

/// How far a coordinate is from the line's start along its axis.
pub open spec fn distance_along(data: CollisionData, c: u32) -> int {
    let s = if data.is_vertical { data.start_y } else { data.start_x };
    if c > s { c - s } else { s - c }
}

/// The nearest meeting point over the ranges; the first one among equally
/// near ones.
pub open spec fn nearest(data: CollisionData, ranges: Seq<CollisionRange>) -> u32
    decreases ranges.len(),
{
    if ranges.len() <= 1 {
        meeting_point(data, ranges[0])
    } else {
        let best = nearest(data, ranges.drop_last());
        let c = meeting_point(data, ranges.last());
        if distance_along(data, c) < distance_along(data, best) {
            c
        } else {
            best
        }
    }
}

/// Finds collisions between lead lines and entities.
pub struct CollisionDetector {
    margin: u32,
}

impl CollisionDetector {
    /// The margin kept around entities.
    pub closed spec fn margin_of(&self) -> u32 {
        self.margin
    }

    /// Creates a detector that keeps `margin` around entities.
    pub fn new(margin: u32) -> (r: Self)
        ensures
            r.margin_of() == margin,
    {
        CollisionDetector { margin }
    }

    /// The entities, other than `source_entity_id`, that a lead line from
    /// `start` in `direction` runs into, each grown by the margin, with
    /// their spans along the line's axis.
    pub fn detect_collisions(
        &self,
        direction: LeadDirection,
        start: Point,
        entities: &[(EntityId, Rectangle)],
        source_entity_id: &EntityId,
    ) -> (r: Vec<(EntityId, CollisionRange)>)
        requires
            forall|i: int| 0 <= i < entities@.len() ==> expandable(#[trigger] entities@[i].1, self.margin_of()),
        ensures
            r@.map_values(|c: (EntityId, CollisionRange)| (c.0@, (c.1.start, c.1.end))) == collisions_of(
                entities@,
                direction,
                start,
                source_entity_id@,
                self.margin_of(),
            ),
    {
        let mut collisions: Vec<(EntityId, CollisionRange)> = Vec::new();
        let n = entities.len();
        for i in 0..n
            invariant
                n == entities@.len(),
                forall|k: int| 0 <= k < entities@.len() ==> expandable(#[trigger] entities@[k].1, self.margin_of()),
                collisions@.map_values(|c: (EntityId, CollisionRange)| (c.0@, (c.1.start, c.1.end))) == collisions_of(
                    entities@.take(i as int),
                    direction,
                    start,
                    source_entity_id@,
                    self.margin_of(),
                ),
        {
            let (entity_id, bounds) = &entities[i];
            assert(entities@.take(i + 1).drop_last() =~= entities@.take(i as int));
            assert(entities@.take(i + 1).last() == entities@[i as int]);
            assert(expandable(entities@[i as int].1, self.margin_of()));
            if !entity_id.same_as(source_entity_id) {
                let grown = Rectangle::new(
                    if bounds.x >= self.margin { bounds.x - self.margin } else { 0 },
                    if bounds.y >= self.margin { bounds.y - self.margin } else { 0 },
                    bounds.width + 2 * self.margin,
                    bounds.height + 2 * self.margin,
                );
                match self.get_collision_range(direction, start, &grown) {
                    Some(range) => {
                        let ghost before = collisions@;
                        collisions.push((entity_id.clone(), range));
                        assert(collisions@.map_values(|c: (EntityId, CollisionRange)| (c.0@, (c.1.start, c.1.end)))
                            =~= before.map_values(|c: (EntityId, CollisionRange)| (c.0@, (c.1.start, c.1.end))).push(
                            (entity_id@, (range.start, range.end)),
                        ));
                    },
                    None => {},
                }
            }
        }
        assert(entities@.take(n as int) =~= entities@);
        collisions
    }

    fn get_collision_range(&self, direction: LeadDirection, start: Point, bounds: &Rectangle) -> (r: Option<
        CollisionRange,
    >)
        requires
            bounds.fits(),
        ensures
            match collision_range(direction, start, *bounds) {
                Some((a, b)) => r matches Some(c) && c.start == a && c.end == b,
                None => r is None,
            },
    {
        match direction {
            LeadDirection::North => {
                if start.x >= bounds.x && start.x <= bounds.right() && bounds.y < start.y {
                    Some(CollisionRange::new(bounds.y, bounds.bottom()))
                } else {
                    None
                }
            },
            LeadDirection::South => {
                if start.x >= bounds.x && start.x <= bounds.right() && bounds.bottom() > start.y {
                    Some(CollisionRange::new(bounds.y, bounds.bottom()))
                } else {
                    None
                }
            },
            LeadDirection::East => {
                if start.y >= bounds.y && start.y <= bounds.bottom() && bounds.x > start.x {
                    Some(CollisionRange::new(bounds.x, bounds.right()))
                } else {
                    None
                }
            },
            LeadDirection::West => {
                if start.y >= bounds.y && start.y <= bounds.bottom() && bounds.right() < start.x {
                    Some(CollisionRange::new(bounds.x, bounds.right()))
                } else {
                    None
                }
            },
        }
    }

    /// The segment a lead line keeps: the whole line when nothing is in
    /// the way, else from its start to the nearest meeting point.
    pub fn process_collisions(&self, data: &CollisionData, collisions: &[CollisionRange]) -> (r: Vec<(Point, Point)>)
        ensures
            r@.len() == 1,
            r@[0].0 == (Point { x: data.start_x, y: data.start_y }),
            collisions@.len() == 0 ==> r@[0].1 == (Point { x: data.end_x, y: data.end_y }),
            collisions@.len() > 0 ==> r@[0].1 == if data.is_vertical {
                Point { x: data.start_x, y: nearest(*data, collisions@) }
            } else {
                Point { x: nearest(*data, collisions@), y: data.start_y }
            },
    {
        let mut segments: Vec<(Point, Point)> = Vec::new();
        let n = collisions.len();
        if n == 0 {
            segments.push((Point::new(data.start_x, data.start_y), Point::new(data.end_x, data.end_y)));
            return segments;
        }
        let s = if data.is_vertical { data.start_y } else { data.start_x };
        let mut best = Self::meeting(data, &collisions[0]);
        let mut best_distance = if best > s { best - s } else { s - best };
        assert(collisions@.take(1).len() == 1);
        for i in 1..n
            invariant
                n == collisions@.len(),
                s == if data.is_vertical { data.start_y } else { data.start_x },
                best == nearest(*data, collisions@.take(i as int)),
                best_distance == distance_along(*data, best),
        {
            let c = Self::meeting(data, &collisions[i]);
            let d = if c > s { c - s } else { s - c };
            assert(collisions@.take(i + 1).drop_last() =~= collisions@.take(i as int));
            assert(collisions@.take(i + 1).last() == collisions@[i as int]);
            if d < best_distance {
                best = c;
                best_distance = d;
            }
        }
        assert(collisions@.take(n as int) =~= collisions@);
        if data.is_vertical {
            segments.push((Point::new(data.start_x, data.start_y), Point::new(data.start_x, best)));
        } else {
            segments.push((Point::new(data.start_x, data.start_y), Point::new(best, data.start_y)));
        }
        segments
    }

    fn meeting(data: &CollisionData, range: &CollisionRange) -> (r: u32)
        ensures
            r == meeting_point(*data, *range),
    {
        if data.is_vertical {
            if data.start_y > range.end { range.end } else { range.start }
        } else {
            if data.start_x > range.end { range.end } else { range.start }
        }
    }
}

} // verus!
