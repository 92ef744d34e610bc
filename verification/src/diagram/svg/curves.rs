//! Curved arrows: a cubic Bézier curve between two entities that swings
//! around the entities in its way; and routed paths.

use super::arrows::{abs, calculate_connection_point, connection_point};
use super::frame::{num, push_num};
use crate::diagram::routing::path_data as route_data;
use crate::diagram::routing::RoutePath;
use crate::infrastructure::text::append_str;
use crate::routing::event_model_router::EntityPosition;
use vstd::prelude::*;

verus! {

/// Whether `v` is an `i32`.
pub open spec fn in_i32(v: int) -> bool {
    i32::MIN <= v <= i32::MAX
}

/// Whether `v` is a non-negative `i32`.
pub open spec fn in_pos_i32(v: int) -> bool {
    0 <= v <= i32::MAX
}

/// Whether `v` is a `u32`.
pub open spec fn in_u32(v: int) -> bool {
    0 <= v <= u32::MAX
}

/// The smaller of `a` and `b`.
pub open spec fn min_int(a: int, b: int) -> int {
    if a <= b {
        a
    } else {
        b
    }
}

/// The larger of `a` and `b`.
pub open spec fn max_int(a: int, b: int) -> int {
    if a >= b {
        a
    } else {
        b
    }
}

/// `a - b`, or zero where that would be negative.
pub open spec fn sat_sub(a: int, b: int) -> int {
    if a > b {
        a - b
    } else {
        0
    }
}

/// Integer division rounding toward zero.
pub open spec fn div_toward_zero(a: int, b: int) -> int {
    if b == 0 {
        0
    } else if (a >= 0) == (b > 0) {
        abs(a) / abs(b)
    } else {
        -(abs(a) / abs(b))
    }
}

/// The right edge of `e`.
pub open spec fn right_of(e: EntityPosition) -> int {
    e.x + e.width
}

/// The bottom edge of `e`.
pub open spec fn bottom_of(e: EntityPosition) -> int {
    e.y + e.height
}

/// The horizontal centre of `e`, rounded down.
pub open spec fn center_x(e: EntityPosition) -> int {
    e.x + e.width / 2
}

/// The vertical centre of `e`, rounded down.
pub open spec fn center_y(e: EntityPosition) -> int {
    e.y + e.height / 2
}

/// The other coordinate of the line through (`x1`, `y1`) and (`x2`, `y2`)
/// where its main coordinate is `at`: `x` for a horizontal line, else `y`.
pub open spec fn line_at(x1: int, y1: int, x2: int, y2: int, at: int, horizontal: bool) -> int {
    if horizontal {
        y1 + div_toward_zero((at - x1) * (y2 - y1), x2 - x1)
    } else {
        x1 + div_toward_zero((at - y1) * (x2 - x1), y2 - y1)
    }
}

/// Whether the line from (`x1`, `y1`) to (`x2`, `y2`) meets entity `e`:
/// a mostly horizontal line where it crosses the entity's left or right
/// edge, within the entity's height; a mostly vertical one where it crosses
/// its top or bottom edge, within its width. A line of no length meets
/// nothing.
pub open spec fn line_meets(x1: int, y1: int, x2: int, y2: int, e: EntityPosition) -> bool {
    let dx = x2 - x1;
    let dy = y2 - y1;
    if dx == 0 && dy == 0 {
        false
    } else if abs(dx) > abs(dy) {
        let yl = line_at(x1, y1, x2, y2, e.x as int, true);
        let yr = line_at(x1, y1, x2, y2, right_of(e), true);
        (e.y <= yl <= bottom_of(e)) || (e.y <= yr <= bottom_of(e))
    } else {
        let xt = line_at(x1, y1, x2, y2, e.y as int, false);
        let xb = line_at(x1, y1, x2, y2, bottom_of(e), false);
        (e.x <= xt <= right_of(e)) || (e.x <= xb <= right_of(e))
    }
}

/// Whether the 32-bit arithmetic of the line test stays in range: the
/// coordinates and the entity's edges are non-negative `i32`s, and so are
/// the products and crossing points it computes.
pub open spec fn line_meets_fits(x1: int, y1: int, x2: int, y2: int, e: EntityPosition) -> bool {
    let dx = x2 - x1;
    let dy = y2 - y1;
    &&& in_pos_i32(x1) && in_pos_i32(y1) && in_pos_i32(x2) && in_pos_i32(y2)
    &&& in_pos_i32(right_of(e)) && in_pos_i32(bottom_of(e))
    &&& (dx == 0 && dy == 0) || (if abs(dx) > abs(dy) {
        &&& in_i32((e.x - x1) * dy) && in_i32((right_of(e) - x1) * dy)
        &&& in_i32(line_at(x1, y1, x2, y2, e.x as int, true))
        &&& in_i32(line_at(x1, y1, x2, y2, right_of(e), true))
    } else {
        &&& in_i32((e.y - y1) * dx) && in_i32((bottom_of(e) - y1) * dx)
        &&& in_i32(line_at(x1, y1, x2, y2, e.y as int, false))
        &&& in_i32(line_at(x1, y1, x2, y2, bottom_of(e), false))
    })
}

/// A product of two numbers of at most 2^31 in size is at most 2^62.
proof fn lemma_small_product(a: int, b: int)
    requires
        -0x8000_0000 <= a <= 0x8000_0000,
        -0x8000_0000 <= b <= 0x8000_0000,
    ensures
        -0x4000_0000_0000_0000 <= a * b <= 0x4000_0000_0000_0000,
{
    assert(-0x4000_0000_0000_0000 <= a * b <= 0x4000_0000_0000_0000) by (nonlinear_arith)
        requires
            -0x8000_0000 <= a <= 0x8000_0000,
            -0x8000_0000 <= b <= 0x8000_0000,
    ;
}

/// Division of `a` by `b`, rounding toward zero.
fn divide_toward_zero(a: i64, b: i64) -> (r: i64)
    requires
        b != 0,
        a > i64::MIN,
        b > i64::MIN,
    ensures
        r == div_toward_zero(a as int, b as int),
        abs(r as int) <= abs(a as int),
{
    let ua: u64 = if a < 0 { (-a) as u64 } else { a as u64 };
    let ub: u64 = if b < 0 { (-b) as u64 } else { b as u64 };
    let q = ua / ub;
    assert(q <= ua) by (nonlinear_arith)
        requires
            ub >= 1,
            q == ua / ub,
    ;
    if (a >= 0) == (b > 0) {
        q as i64
    } else {
        -(q as i64)
    }
}

/// The other coordinate of a line where its main coordinate is `at`, as in
/// `line_at`, from the start (`s_main`, `s_other`) and the extents.
fn cross_at(s_main: i64, s_other: i64, d_main: i64, d_other: i64, at: i64) -> (r: i64)
    requires
        d_main != 0,
        -0x8000_0000 <= at - s_main <= 0x8000_0000,
        -0x8000_0000 <= d_main <= 0x8000_0000,
        -0x8000_0000 <= d_other <= 0x8000_0000,
        0 <= s_other <= 0x8000_0000,
    ensures
        r == s_other + div_toward_zero((at - s_main) * d_other, d_main as int),
{
    proof {
        lemma_small_product(at - s_main, d_other as int);
    }
    s_other + divide_toward_zero((at - s_main) * d_other, d_main)
}

/// Checks whether the line from (`x1`, `y1`) to (`x2`, `y2`) meets the
/// entity.
pub fn is_entity_in_line_path(x1: u32, y1: u32, x2: u32, y2: u32, entity: &EntityPosition) -> (r: bool)
    requires
        line_meets_fits(x1 as int, y1 as int, x2 as int, y2 as int, *entity),
    ensures
        r == line_meets(x1 as int, y1 as int, x2 as int, y2 as int, *entity),
{
    let left = entity.x as i64;
    let right = entity.x as i64 + entity.width as i64;
    let top = entity.y as i64;
    let bottom = entity.y as i64 + entity.height as i64;
    let dx = x2 as i64 - x1 as i64;
    let dy = y2 as i64 - y1 as i64;
    if dx == 0 && dy == 0 {
        return false;
    }
    let adx = if dx < 0 { -dx } else { dx };
    let ady = if dy < 0 { -dy } else { dy };
    if adx > ady && dx != 0 {
        let y_at_left = cross_at(x1 as i64, y1 as i64, dx, dy, left);
        let y_at_right = cross_at(x1 as i64, y1 as i64, dx, dy, right);
        (y_at_left >= top && y_at_left <= bottom) || (y_at_right >= top && y_at_right <= bottom)
    } else if dy != 0 {
        let x_at_top = cross_at(y1 as i64, x1 as i64, dy, dx, top);
        let x_at_bottom = cross_at(y1 as i64, x1 as i64, dy, dx, bottom);
        (x_at_top >= left && x_at_top <= right) || (x_at_bottom >= left && x_at_bottom <= right)
    } else {
        false
    }
}

/// Whether `pos` is the source or the target: it has the same top left
/// corner as one of them.
pub open spec fn is_endpoint(pos: EntityPosition, from: EntityPosition, to: EntityPosition) -> bool {
    (pos.x == from.x && pos.y == from.y) || (pos.x == to.x && pos.y == to.y)
}

/// Whether `pos` overlaps the bounding box of the line from (`x1`, `y1`) to
/// (`x2`, `y2`), edges included.
pub open spec fn meets_box(pos: EntityPosition, x1: int, y1: int, x2: int, y2: int) -> bool {
    &&& right_of(pos) >= min_int(x1, x2) && pos.x <= max_int(x1, x2)
    &&& bottom_of(pos) >= min_int(y1, y2) && pos.y <= max_int(y1, y2)
}

/// Whether `pos` is in the way of the line from (`x1`, `y1`) to
/// (`x2`, `y2`) between `from` and `to`.
pub open spec fn blocks(
    pos: EntityPosition,
    x1: int,
    y1: int,
    x2: int,
    y2: int,
    from: EntityPosition,
    to: EntityPosition,
) -> bool {
    !is_endpoint(pos, from, to) && meets_box(pos, x1, y1, x2, y2) && line_meets(x1, y1, x2, y2, pos)
}

/// The entities of `positions` in the way of the line, in their order.
pub open spec fn obstacles_in(
    positions: Seq<(String, EntityPosition)>,
    x1: int,
    y1: int,
    x2: int,
    y2: int,
    from: EntityPosition,
    to: EntityPosition,
) -> Seq<EntityPosition>
    decreases positions.len(),
{
    if positions.len() == 0 {
        Seq::empty()
    } else {
        let rest = obstacles_in(positions.drop_last(), x1, y1, x2, y2, from, to);
        let pos = positions.last().1;
        if blocks(pos, x1, y1, x2, y2, from, to) {
            rest.push(pos)
        } else {
            rest
        }
    }
}

/// Whether the 32-bit arithmetic of the obstacle search stays in range for
/// `pos`: the edges of each entity that is no endpoint fit, and the line
/// test fits where the entity meets the bounding box.
pub open spec fn position_fits(
    pos: EntityPosition,
    x1: int,
    y1: int,
    x2: int,
    y2: int,
    from: EntityPosition,
    to: EntityPosition,
) -> bool {
    !is_endpoint(pos, from, to) ==> {
        &&& in_u32(right_of(pos)) && in_u32(bottom_of(pos))
        &&& meets_box(pos, x1, y1, x2, y2) ==> line_meets_fits(x1, y1, x2, y2, pos)
    }
}

/// `position_fits` for every entity of `positions`.
pub open spec fn search_fits(
    positions: Seq<(String, EntityPosition)>,
    x1: int,
    y1: int,
    x2: int,
    y2: int,
    from: EntityPosition,
    to: EntityPosition,
) -> bool {
    forall|k: int| 0 <= k < positions.len() ==> #[trigger] position_fits(positions[k].1, x1, y1, x2, y2, from, to)
}

/// Finds the entities in the way of the line from (`from_x`, `from_y`) to
/// (`to_x`, `to_y`), leaving out the source and the target.
pub fn find_entities_in_path(
    from_x: u32,
    from_y: u32,
    to_x: u32,
    to_y: u32,
    from_entity: &EntityPosition,
    to_entity: &EntityPosition,
    entity_positions: &Vec<(String, EntityPosition)>,
) -> (r: Vec<EntityPosition>)
    requires
        search_fits(entity_positions@, from_x as int, from_y as int, to_x as int, to_y as int, *from_entity, *to_entity),
    ensures
        r@ == obstacles_in(entity_positions@, from_x as int, from_y as int, to_x as int, to_y as int, *from_entity, *to_entity),
{
    let ghost (x1, y1, x2, y2) = (from_x as int, from_y as int, to_x as int, to_y as int);
    let mut obstacles: Vec<EntityPosition> = Vec::new();
    let min_x = if from_x <= to_x { from_x } else { to_x };
    let max_x = if from_x >= to_x { from_x } else { to_x };
    let min_y = if from_y <= to_y { from_y } else { to_y };
    let max_y = if from_y >= to_y { from_y } else { to_y };
    let n = entity_positions.len();
    let mut k: usize = 0;
    while k < n
        invariant
            n == entity_positions@.len(),
            k <= n,
            x1 == from_x && y1 == from_y && x2 == to_x && y2 == to_y,
            min_x == min_int(x1, x2) && max_x == max_int(x1, x2),
            min_y == min_int(y1, y2) && max_y == max_int(y1, y2),
            search_fits(entity_positions@, x1, y1, x2, y2, *from_entity, *to_entity),
            obstacles@ == obstacles_in(entity_positions@.take(k as int), x1, y1, x2, y2, *from_entity, *to_entity),
        decreases n - k,
    {
        let pos = entity_positions[k].1;
        proof {
            assert(position_fits(entity_positions@[k as int].1, x1, y1, x2, y2, *from_entity, *to_entity));
            assert(entity_positions@.take(k + 1).drop_last() =~= entity_positions@.take(k as int));
        }
        let skipped = (pos.x == from_entity.x && pos.y == from_entity.y) || (pos.x == to_entity.x && pos.y
            == to_entity.y);
        if !skipped {
            if pos.x + pos.width >= min_x && pos.x <= max_x && pos.y + pos.height >= min_y && pos.y <= max_y {
                if is_entity_in_line_path(from_x, from_y, to_x, to_y, &pos) {
                    obstacles.push(pos);
                }
            }
        }
        k = k + 1;
    }
    proof {
        assert(entity_positions@.take(n as int) =~= entity_positions@);
    }
    obstacles
}

/// The squared distance from the centre of `o` to (`mx`, `my`).
pub open spec fn distance_key(o: EntityPosition, mx: int, my: int) -> int {
    (center_x(o) - mx) * (center_x(o) - mx) + (center_y(o) - my) * (center_y(o) - my)
}

/// The index of the first of `obs` nearest to (`mx`, `my`).
pub open spec fn nearest_index(obs: Seq<EntityPosition>, mx: int, my: int) -> int
    decreases obs.len(),
{
    if obs.len() <= 1 {
        0
    } else {
        let i = nearest_index(obs.drop_last(), mx, my);
        if distance_key(obs.last(), mx, my) < distance_key(obs[i], mx, my) {
            obs.len() - 1
        } else {
            i
        }
    }
}

/// The index that `nearest_index` picks lies in range, nothing is nearer,
/// and everything before it is further away.
pub proof fn lemma_nearest_index(obs: Seq<EntityPosition>, mx: int, my: int)
    requires
        obs.len() > 0,
    ensures
        0 <= nearest_index(obs, mx, my) < obs.len(),
        forall|j: int|
            0 <= j < obs.len() ==> distance_key(obs[nearest_index(obs, mx, my)], mx, my) <= #[trigger] distance_key(
                obs[j],
                mx,
                my,
            ),
        forall|j: int|
            0 <= j < nearest_index(obs, mx, my) ==> distance_key(obs[nearest_index(obs, mx, my)], mx, my)
                < #[trigger] distance_key(obs[j], mx, my),
    decreases obs.len(),
{
    if obs.len() > 1 {
        let rest = obs.drop_last();
        lemma_nearest_index(rest, mx, my);
        let i = nearest_index(rest, mx, my);
        assert(forall|j: int| 0 <= j < rest.len() ==> #[trigger] rest[j] == obs[j]);
        assert forall|j: int| 0 <= j < obs.len() implies distance_key(obs[nearest_index(obs, mx, my)], mx, my)
            <= #[trigger] distance_key(obs[j], mx, my) by {
            if j < rest.len() {
                assert(distance_key(rest[i], mx, my) <= distance_key(rest[j], mx, my));
            }
        }
        assert forall|j: int| 0 <= j < nearest_index(obs, mx, my) implies distance_key(
            obs[nearest_index(obs, mx, my)],
            mx,
            my,
        ) < #[trigger] distance_key(obs[j], mx, my) by {
            assert(distance_key(rest[i], mx, my) <= distance_key(rest[j], mx, my));
            if j < i {
                assert(distance_key(rest[i], mx, my) < distance_key(rest[j], mx, my));
            }
        }
    }
}

/// The control points of a curve from (`fx`, `fy`) to (`tx`, `ty`) that
/// swings around the obstacle nearest to the middle of the line: above or
/// below it, 30 away, when the line is mostly horizontal, else to its left
/// or right; the side is the one the middle lies on (below or right when
/// level with the obstacle's centre). With no obstacle, a gentle curve.
pub open spec fn avoidance_curve(fx: int, fy: int, tx: int, ty: int, obs: Seq<EntityPosition>) -> (int, int, int, int) {
    let dx = tx - fx;
    let dy = ty - fy;
    let mx = (fx + tx) / 2;
    let my = (fy + ty) / 2;
    if obs.len() == 0 {
        (fx + abs(dx) / 3, fy, tx - abs(dx) / 3, ty)
    } else {
        let o = obs[nearest_index(obs, mx, my)];
        if abs(dx) > abs(dy) {
            let d = if my < center_y(o) { sat_sub(o.y as int, 30) } else { bottom_of(o) + 30 };
            (fx + abs(dx) / 3, d, tx - abs(dx) / 3, d)
        } else {
            let d = if mx < center_x(o) { sat_sub(o.x as int, 30) } else { right_of(o) + 30 };
            (d, fy + abs(dy) / 3, d, ty - abs(dy) / 3)
        }
    }
}

/// Whether the 32-bit arithmetic of `avoidance_curve` stays in range: the
/// points are non-negative `i32`s, so are the centres and squared distances
/// of the obstacles, and the control points are `u32`s.
pub open spec fn avoidance_fits(fx: int, fy: int, tx: int, ty: int, obs: Seq<EntityPosition>) -> bool {
    let c = avoidance_curve(fx, fy, tx, ty, obs);
    &&& in_pos_i32(fx) && in_pos_i32(fy) && in_pos_i32(tx) && in_pos_i32(ty)
    &&& forall|k: int|
        0 <= k < obs.len() ==> {
            &&& in_pos_i32(center_x(#[trigger] obs[k])) && in_pos_i32(center_y(obs[k]))
            &&& distance_key(obs[k], (fx + tx) / 2, (fy + ty) / 2) <= i32::MAX
        }
    &&& in_u32(c.0) && in_u32(c.1) && in_u32(c.2) && in_u32(c.3)
}

/// The squared distance from the centre of `o` to (`mx`, `my`).
fn squared_distance(o: &EntityPosition, mx: i64, my: i64) -> (r: i64)
    requires
        in_pos_i32(center_x(*o)) && in_pos_i32(center_y(*o)),
        in_pos_i32(mx as int) && in_pos_i32(my as int),
        distance_key(*o, mx as int, my as int) <= i32::MAX,
    ensures
        r == distance_key(*o, mx as int, my as int),
{
    let ddx = (o.x as i64 + o.width as i64 / 2) - mx;
    let ddy = (o.y as i64 + o.height as i64 / 2) - my;
    proof {
        lemma_small_product(ddx as int, ddx as int);
        lemma_small_product(ddy as int, ddy as int);
        assert(ddx * ddx >= 0 && ddy * ddy >= 0) by (nonlinear_arith);
    }
    ddx * ddx + ddy * ddy
}

/// Calculates the control points of a curve that swings around the
/// obstacles: see `avoidance_curve`.
pub fn calculate_avoidance_curve(
    from_x: u32,
    from_y: u32,
    to_x: u32,
    to_y: u32,
    _from_entity: &EntityPosition,
    _to_entity: &EntityPosition,
    obstacles: &Vec<EntityPosition>,
) -> (r: (u32, u32, u32, u32))
    requires
        avoidance_fits(from_x as int, from_y as int, to_x as int, to_y as int, obstacles@),
    ensures
        (r.0 as int, r.1 as int, r.2 as int, r.3 as int) == avoidance_curve(
            from_x as int,
            from_y as int,
            to_x as int,
            to_y as int,
            obstacles@,
        ),
{
    let ghost c = avoidance_curve(from_x as int, from_y as int, to_x as int, to_y as int, obstacles@);
    let fx = from_x as i64;
    let fy = from_y as i64;
    let tx = to_x as i64;
    let ty = to_y as i64;
    let dx = tx - fx;
    let dy = ty - fy;
    let adx = if dx < 0 { -dx } else { dx };
    let ady = if dy < 0 { -dy } else { dy };
    let mx = (fx + tx) / 2;
    let my = (fy + ty) / 2;
    let n = obstacles.len();
    if n == 0 {
        return ((fx + adx / 3) as u32, from_y, (tx - adx / 3) as u32, to_y);
    }
    let mut best: usize = 0;
    let mut best_key = squared_distance(&obstacles[0], mx, my);
    let mut k: usize = 1;
    while k < n
        invariant
            n == obstacles@.len(),
            1 <= k <= n,
            mx == (from_x + to_x) / 2 && my == (from_y + to_y) / 2,
            avoidance_fits(from_x as int, from_y as int, to_x as int, to_y as int, obstacles@),
            best == nearest_index(obstacles@.take(k as int), mx as int, my as int),
            best < k,
            best_key == distance_key(obstacles@[best as int], mx as int, my as int),
        decreases n - k,
    {
        let ghost prefix = obstacles@.take(k + 1);
        proof {
            assert(prefix.drop_last() =~= obstacles@.take(k as int));
            assert(in_pos_i32(center_x(obstacles@[k as int])));
        }
        let key = squared_distance(&obstacles[k], mx, my);
        if key < best_key {
            best = k;
            best_key = key;
        }
        k = k + 1;
    }
    proof {
        assert(obstacles@.take(n as int) =~= obstacles@);
    }
    let o = obstacles[best];
    if adx > ady {
        let detour = if my < o.y as i64 + o.height as i64 / 2 {
            if o.y >= 30 { o.y - 30 } else { 0 }
        } else {
            (o.y as i64 + o.height as i64 + 30) as u32
        };
        ((fx + adx / 3) as u32, detour, (tx - adx / 3) as u32, detour)
    } else {
        let detour = if mx < o.x as i64 + o.width as i64 / 2 {
            if o.x >= 30 { o.x - 30 } else { 0 }
        } else {
            (o.x as i64 + o.width as i64 + 30) as u32
        };
        (detour, (fy + ady / 3) as u32, detour, (ty - ady / 3) as u32)
    }
}

/// The control points of the curved arrow from `from` to `to`, given the
/// obstacles in the way of the straight line between their connection
/// points: around the obstacles where there are any; else, moving right
/// across slices, a gentle curve for entities in about the same row and a
/// diagonal one otherwise; within a slice, a bulge of 60 to one side for a
/// nearly vertical line, an offset of up to 40 for a steep one and a gentle
/// curve otherwise; and moving back left, a loop 40 out on both sides
/// through the middle height.
pub open spec fn curve_controls(from: EntityPosition, to: EntityPosition, obs: Seq<EntityPosition>) -> (int, int, int, int) {
    let (fx, fy) = connection_point(from, to, true);
    let (tx, ty) = connection_point(to, from, false);
    let dx = tx - fx;
    let dy = ty - fy;
    if obs.len() > 0 {
        avoidance_curve(fx, fy, tx, ty, obs)
    } else if from.slice_index < to.slice_index {
        if abs(center_y(from) - center_y(to)) < from.height / 3 {
            (fx + abs(dx) / 3, fy, tx - abs(dx) / 3, ty)
        } else {
            (fx + abs(dx) / 2, fy, tx - 20, ty)
        }
    } else if from.slice_index == to.slice_index {
        if abs(dx) < 20 {
            if dy > 0 {
                (fx + 60, fy + 20, tx + 60, ty - 20)
            } else {
                (fx - 60, fy - 20, tx - 60, ty + 20)
            }
        } else if abs(dy) > abs(dx) {
            let offset = min_int(40, abs(dx) / 2 + 20);
            if fx < tx {
                (fx + offset, fy, tx - offset, ty)
            } else {
                (fx - offset, fy, tx + offset, ty)
            }
        } else {
            (fx + abs(dx) / 3, fy, tx - abs(dx) / 3, ty)
        }
    } else {
        let my = (fy + ty) / 2;
        (fx - 40, my, tx + 40, my)
    }
}

/// The last control point, turned toward the target's centre: a coordinate
/// more than 10 off the centre's is replaced by it where the arrow enters
/// within 5 of the centre along that coordinate.
pub open spec fn approach(c: (int, int, int, int), to: EntityPosition, tx: int, ty: int) -> (int, int) {
    let ax = if abs(center_x(to) - c.2) > 10 && abs(tx - center_x(to)) < 5 {
        center_x(to)
    } else {
        c.2
    };
    let ay = if abs(center_y(to) - c.3) > 10 && abs(ty - center_y(to)) < 5 {
        center_y(to)
    } else {
        c.3
    };
    (ax, ay)
}

/// The obstacles in the way of the curved arrow from `from` to `to`.
pub open spec fn curve_obstacles(from: EntityPosition, to: EntityPosition, positions: Seq<(String, EntityPosition)>) -> Seq<EntityPosition> {
    let (fx, fy) = connection_point(from, to, true);
    let (tx, ty) = connection_point(to, from, false);
    obstacles_in(positions, fx, fy, tx, ty, from, to)
}

/// Whether the 32-bit arithmetic of the curved arrow stays in range: the
/// edges of both entities are non-negative `i32`s, the obstacle search and
/// the avoidance curve fit, the first control point is made of `u32`s and
/// the second of non-negative `i32`s.
pub open spec fn curve_fits(from: EntityPosition, to: EntityPosition, positions: Seq<(String, EntityPosition)>) -> bool {
    let (fx, fy) = connection_point(from, to, true);
    let (tx, ty) = connection_point(to, from, false);
    let obs = curve_obstacles(from, to, positions);
    let c = curve_controls(from, to, obs);
    &&& in_pos_i32(right_of(from)) && in_pos_i32(bottom_of(from))
    &&& in_pos_i32(right_of(to)) && in_pos_i32(bottom_of(to))
    &&& search_fits(positions, fx, fy, tx, ty, from, to)
    &&& obs.len() > 0 ==> avoidance_fits(fx, fy, tx, ty, obs)
    &&& in_u32(c.0) && in_u32(c.1) && in_pos_i32(c.2) && in_pos_i32(c.3)
}

/// The SVG of the curved arrow from `from` to `to`.
pub open spec fn curved_arrow_svg(from: EntityPosition, to: EntityPosition, positions: Seq<(String, EntityPosition)>) -> Seq<char> {
    let (fx, fy) = connection_point(from, to, true);
    let (tx, ty) = connection_point(to, from, false);
    let c = curve_controls(from, to, curve_obstacles(from, to, positions));
    let (ax, ay) = approach(c, to, tx, ty);
    "  <path d=\"M "@ + num(fx) + " "@ + num(fy) + " C "@ + num(c.0) + " "@ + num(c.1) + ", "@ + num(ax) + " "@
        + num(ay) + ", "@ + num(tx) + " "@ + num(ty)
        + "\" stroke=\"#333333\" stroke-width=\"2\" fill=\"none\" marker-end=\"url(#arrowhead)\" />\n"@
}

/// The absolute value of `v`.
fn abs_i64(v: i64) -> (r: i64)
    requires
        v > i64::MIN,
    ensures
        r == abs(v as int),
{
    if v < 0 {
        -v
    } else {
        v
    }
}

/// The control points of the curved arrow: see `curve_controls`.
fn curve_control_points(
    from: &EntityPosition,
    to: &EntityPosition,
    from_x: u32,
    from_y: u32,
    to_x: u32,
    to_y: u32,
    obstacles: &Vec<EntityPosition>,
) -> (r: (u32, u32, u32, u32))
    requires
        (from_x as int, from_y as int) == connection_point(*from, *to, true),
        (to_x as int, to_y as int) == connection_point(*to, *from, false),
        in_pos_i32(right_of(*from)) && in_pos_i32(bottom_of(*from)),
        in_pos_i32(right_of(*to)) && in_pos_i32(bottom_of(*to)),
        obstacles@.len() > 0 ==> avoidance_fits(from_x as int, from_y as int, to_x as int, to_y as int, obstacles@),
        ({
            let c = curve_controls(*from, *to, obstacles@);
            in_u32(c.0) && in_u32(c.1) && in_u32(c.2) && in_u32(c.3)
        }),
    ensures
        (r.0 as int, r.1 as int, r.2 as int, r.3 as int) == curve_controls(*from, *to, obstacles@),
{
    if obstacles.len() > 0 {
        return calculate_avoidance_curve(from_x, from_y, to_x, to_y, from, to, obstacles);
    }
    let fx = from_x as i64;
    let fy = from_y as i64;
    let tx = to_x as i64;
    let ty = to_y as i64;
    let dx = tx - fx;
    let dy = ty - fy;
    let adx = abs_i64(dx);
    let ady = abs_i64(dy);
    let c: (i64, i64, i64, i64) = if from.slice_index < to.slice_index {
        let fcy = from.y as i64 + from.height as i64 / 2;
        let tcy = to.y as i64 + to.height as i64 / 2;
        if abs_i64(fcy - tcy) < from.height as i64 / 3 {
            (fx + adx / 3, fy, tx - adx / 3, ty)
        } else {
            (fx + adx / 2, fy, tx - 20, ty)
        }
    } else if from.slice_index == to.slice_index {
        if adx < 20 {
            if dy > 0 {
                (fx + 60, fy + 20, tx + 60, ty - 20)
            } else {
                (fx - 60, fy - 20, tx - 60, ty + 20)
            }
        } else if ady > adx {
            let offset = if adx / 2 + 20 < 40 { adx / 2 + 20 } else { 40 };
            if fx < tx {
                (fx + offset, fy, tx - offset, ty)
            } else {
                (fx - offset, fy, tx + offset, ty)
            }
        } else {
            (fx + adx / 3, fy, tx - adx / 3, ty)
        }
    } else {
        let my = (fy + ty) / 2;
        (fx - 40, my, tx + 40, my)
    };
    (c.0 as u32, c.1 as u32, c.2 as u32, c.3 as u32)
}

/// Renders a curved arrow from `from` to `to` as a cubic Bézier curve that
/// swings around the entities of `entity_positions` in its way.
pub fn render_curved_arrow(
    from: &EntityPosition,
    to: &EntityPosition,
    entity_positions: &Vec<(String, EntityPosition)>,
) -> (r: String)
    requires
        curve_fits(*from, *to, entity_positions@),
    ensures
        r@ == curved_arrow_svg(*from, *to, entity_positions@),
{
    let (fx, fy) = calculate_connection_point(from, to, true);
    let (tx, ty) = calculate_connection_point(to, from, false);
    let from_x = fx as u32;
    let from_y = fy as u32;
    let to_x = tx as u32;
    let to_y = ty as u32;
    let obstacles = find_entities_in_path(from_x, from_y, to_x, to_y, from, to, entity_positions);
    let (cx1, cy1, cx2, cy2) = curve_control_points(from, to, from_x, from_y, to_x, to_y, &obstacles);
    let tcx = to.x as i64 + to.width as i64 / 2;
    let tcy = to.y as i64 + to.height as i64 / 2;
    let ax = if abs_i64(tcx - cx2 as i64) > 10 && abs_i64(tx as i64 - tcx) < 5 { tcx as u64 } else { cx2 as u64 };
    let ay = if abs_i64(tcy - cy2 as i64) > 10 && abs_i64(ty as i64 - tcy) < 5 { tcy as u64 } else { cy2 as u64 };
    let mut s = String::new();
    append_str(&mut s, "  <path d=\"M ");
    push_num(&mut s, fx);
    append_str(&mut s, " ");
    push_num(&mut s, fy);
    append_str(&mut s, " C ");
    push_num(&mut s, cx1 as u64);
    append_str(&mut s, " ");
    push_num(&mut s, cy1 as u64);
    append_str(&mut s, ", ");
    push_num(&mut s, ax);
    append_str(&mut s, " ");
    push_num(&mut s, ay);
    append_str(&mut s, ", ");
    push_num(&mut s, tx);
    append_str(&mut s, " ");
    push_num(&mut s, ty);
    append_str(&mut s, "\" stroke=\"#333333\" stroke-width=\"2\" fill=\"none\" marker-end=\"url(#arrowhead)\" />\n");
    assert(s@ =~= curved_arrow_svg(*from, *to, entity_positions@));
    s
}

/// Renders a routed path as an SVG path element with an arrowhead.
pub fn render_routed_path(route: &RoutePath) -> (r: String)
    ensures
        r@ == "  <path d=\""@ + route_data(route.nodes@)
            + "\" fill=\"none\" stroke=\"#333333\" stroke-width=\"2\" marker-end=\"url(#arrowhead)\" />\n"@,
{
    let svg_path = route.to_svg_path();
    let mut s = String::new();
    append_str(&mut s, "  <path d=\"");
    append_str(&mut s, svg_path.as_str());
    append_str(&mut s, "\" fill=\"none\" stroke=\"#333333\" stroke-width=\"2\" marker-end=\"url(#arrowhead)\" />\n");
    s
}

} // verus!
