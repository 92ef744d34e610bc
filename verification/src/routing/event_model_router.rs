//! Routing decisions specific to Event Model diagrams: the entity a
//! reference names, the placed instance of an entity nearest to a slice,
//! and the edge points a connection leaves and enters by.

use crate::diagram::routing::Point;
use crate::event_model::yaml_to_diagram_converter::{before_dot, text_before_dot};
use crate::event_model::yaml_types::EntityReference;
use crate::infrastructure::text::{append_str, decimal, push_char, push_decimal, str_equal};
use vstd::prelude::*;

verus! {

/// Identifies a unique connection in the diagram.
#[derive(Debug, Clone, PartialEq, Eq)]
pub struct ConnectionId {
    /// The slice index where this connection appears.
    pub slice_index: usize,
    /// The source entity reference.
    pub from: EntityReference,
    /// The target entity reference.
    pub to: EntityReference,
}

/// Position information for a rendered entity.
#[derive(Debug, Clone, Copy, PartialEq, Eq, Structural)]
pub struct EntityPosition {
    /// Left edge.
    pub x: u32,
    /// Top edge.
    pub y: u32,
    /// Width.
    pub width: u32,
    /// Height.
    pub height: u32,
    /// The slice this instance of the entity was placed in.
    pub slice_index: usize,
}

/// The name of the entity a reference designates: a view path designates
/// the view before its first `.`.
pub open spec fn reference_name(r: EntityReference) -> Seq<char> {
    match r {
        EntityReference::View(p) => before_dot(p@),
        EntityReference::Command(n) => n@,
        EntityReference::Event(n) => n@,
        EntityReference::Projection(n) => n@,
        EntityReference::Query(n) => n@,
        EntityReference::Automation(n) => n@,
    }
}

/// Extracts the entity name from an entity reference.
pub fn extract_entity_name(entity_ref: &EntityReference) -> (r: String)
    ensures
        r@ == reference_name(*entity_ref),
{
    match entity_ref {
        EntityReference::View(view_path) => text_before_dot(view_path.clone().into_inner().as_str()),
        EntityReference::Command(name) => name.clone().into_inner().as_str().to_string(),
        EntityReference::Event(name) => name.clone().into_inner().as_str().to_string(),
        EntityReference::Projection(name) => name.clone().into_inner().as_str().to_string(),
        EntityReference::Query(name) => name.clone().into_inner().as_str().to_string(),
        EntityReference::Automation(name) => name.clone().into_inner().as_str().to_string(),
    }
}

/// The key under which the instance of entity `name` placed in slice
/// `slice` is recorded: the name, `_`, and the slice number.
pub open spec fn position_key(name: Seq<char>, slice: nat) -> Seq<char> {
    name + seq!['_'] + decimal(slice)
}

/// Whether `key` starts with `prefix`.
pub open spec fn has_prefix(key: Seq<char>, prefix: Seq<char>) -> bool {
    prefix.len() <= key.len() && key.take(prefix.len() as int) == prefix
}

/// How many slices apart `a` and `b` are.
pub open spec fn slice_distance(a: usize, b: usize) -> int {
    if a > b { a - b } else { b - a }
}

/// The recorded positions with their keys as text.
pub open spec fn key_views(entries: Seq<(String, EntityPosition)>) -> Seq<(Seq<char>, EntityPosition)> {
    entries.map_values(|e: (String, EntityPosition)| (e.0@, e.1))
}

/// Whether entry `k` is an instance of the entity whose keys start with
/// `prefix`, at a distance from `slice` below `usize::MAX`.
pub open spec fn is_candidate(
    entries: Seq<(Seq<char>, EntityPosition)>,
    prefix: Seq<char>,
    slice: usize,
    k: int,
) -> bool {
    &&& 0 <= k < entries.len()
    &&& has_prefix(entries[k].0, prefix)
    &&& slice_distance(entries[k].1.slice_index, slice) < usize::MAX
}

/// Entry `k` is the candidate nearest to `slice`, and the first among the
/// equally near ones.
pub open spec fn is_nearest(
    entries: Seq<(Seq<char>, EntityPosition)>,
    prefix: Seq<char>,
    slice: usize,
    k: int,
) -> bool {
    &&& is_candidate(entries, prefix, slice, k)
    &&& forall|j: int| #[trigger] is_candidate(entries, prefix, slice, j) ==>
            slice_distance(entries[k].1.slice_index, slice) <= slice_distance(entries[j].1.slice_index, slice)
    &&& forall|j: int| 0 <= j < k && #[trigger] is_candidate(entries, prefix, slice, j) ==>
            slice_distance(entries[k].1.slice_index, slice) < slice_distance(entries[j].1.slice_index, slice)
}

/// The instance `find_entity_position` picks: the first entry recorded
/// under the exact key for the slice, else the nearest instance.
pub open spec fn picks_position(
    entries: Seq<(Seq<char>, EntityPosition)>,
    name: Seq<char>,
    slice: usize,
    r: Option<EntityPosition>,
) -> bool {
    let key = position_key(name, slice as nat);
    let prefix = name + seq!['_'];
    if exists|k: int| 0 <= k < entries.len() && #[trigger] entries[k].0 == key {
        exists|k: int| {
            &&& 0 <= k < entries.len()
            &&& #[trigger] entries[k].0 == key
            &&& (forall|j: int| 0 <= j < k ==> entries[j].0 != key)
            &&& r == Some(entries[k].1)
        }
    } else if exists|k: int| #[trigger] is_candidate(entries, prefix, slice, k) {
        exists|k: int| #[trigger] is_nearest(entries, prefix, slice, k) && r == Some(entries[k].1)
    } else {
        r is None
    }
}

/// The instance `find_entity_position` picks, as a function of the
/// recorded positions, the name and the slice.
pub open spec fn picked_position(
    entries: Seq<(Seq<char>, EntityPosition)>,
    name: Seq<char>,
    slice: usize,
) -> Option<EntityPosition> {
    choose|r: Option<EntityPosition>| picks_position(entries, name, slice, r)
}

/// At most one instance meets `picks_position`.
pub proof fn lemma_picks_unique(
    entries: Seq<(Seq<char>, EntityPosition)>,
    name: Seq<char>,
    slice: usize,
    r1: Option<EntityPosition>,
    r2: Option<EntityPosition>,
)
    requires
        picks_position(entries, name, slice, r1),
        picks_position(entries, name, slice, r2),
    ensures
        r1 == r2,
{
    let key = position_key(name, slice as nat);
    let prefix = name + seq!['_'];
    if exists|k: int| 0 <= k < entries.len() && #[trigger] entries[k].0 == key {
        let k1 = choose|k: int| {
            &&& 0 <= k < entries.len()
            &&& #[trigger] entries[k].0 == key
            &&& (forall|j: int| 0 <= j < k ==> entries[j].0 != key)
            &&& r1 == Some(entries[k].1)
        };
        let k2 = choose|k: int| {
            &&& 0 <= k < entries.len()
            &&& #[trigger] entries[k].0 == key
            &&& (forall|j: int| 0 <= j < k ==> entries[j].0 != key)
            &&& r2 == Some(entries[k].1)
        };
        if k1 < k2 {
            assert(entries[k1].0 != key);
        } else if k2 < k1 {
            assert(entries[k2].0 != key);
        }
    } else if exists|k: int| #[trigger] is_candidate(entries, prefix, slice, k) {
        let k1 = choose|k: int| #[trigger] is_nearest(entries, prefix, slice, k) && r1 == Some(entries[k].1);
        let k2 = choose|k: int| #[trigger] is_nearest(entries, prefix, slice, k) && r2 == Some(entries[k].1);
        if k1 < k2 {
            assert(is_candidate(entries, prefix, slice, k1));
        } else if k2 < k1 {
            assert(is_candidate(entries, prefix, slice, k2));
        }
    }
}

/// The instance picked is the one `picked_position` names.
pub proof fn lemma_picked(
    entries: Seq<(Seq<char>, EntityPosition)>,
    name: Seq<char>,
    slice: usize,
    r: Option<EntityPosition>,
)
    requires
        picks_position(entries, name, slice, r),
    ensures
        picked_position(entries, name, slice) == r,
{
    lemma_picks_unique(entries, name, slice, r, picked_position(entries, name, slice));
}

/// Whether `key` starts with `prefix`.
fn starts_with(key: &str, prefix: &str) -> (r: bool)
    ensures
        r == has_prefix(key@, prefix@),
{
    let n = prefix.unicode_len();
    if n > key.unicode_len() {
        return false;
    }
    let mut i: usize = 0;
    while i < n
        invariant
            n == prefix@.len(),
            n <= key@.len(),
            i <= n,
            forall|j: int| 0 <= j < i ==> key@[j] == prefix@[j],
        decreases n - i,
    {
        if key.get_char(i) != prefix.get_char(i) {
            assert(key@.take(n as int)[i as int] != prefix@[i as int]);
            return false;
        }
        i += 1;
    }
    assert(key@.take(n as int) =~= prefix@);
    true
}

/// Finds the position of an entity for a slice: the instance recorded for
/// that slice, else the instance nearest to it (the first of equally near
/// ones), else none.
pub fn find_entity_position<'a>(
    entity_name: &str,
    slice_index: usize,
    entity_positions: &'a Vec<(String, EntityPosition)>,
) -> (r: Option<&'a EntityPosition>)
    ensures
        picks_position(key_views(entity_positions@), entity_name@, slice_index, match r {
            Some(p) => Some(*p),
            None => None,
        }),
{
    let ghost entries = key_views(entity_positions@);
    let ghost key_spec = position_key(entity_name@, slice_index as nat);
    let ghost prefix_spec = entity_name@ + seq!['_'];
    let mut key = entity_name.to_string();
    push_char(&mut key, '_');
    push_decimal(&mut key, slice_index as u64);
    assert(key@ == key_spec);
    let n = entity_positions.len();
    let mut i: usize = 0;
    while i < n
        invariant
            n == entries.len(),
            entries == key_views(entity_positions@),
            key@ == key_spec,
            key_spec == position_key(entity_name@, slice_index as nat),
            i <= n,
            forall|j: int| 0 <= j < i ==> entries[j].0 != key_spec,
        decreases n - i,
    {
        if str_equal(entity_positions[i].0.as_str(), key.as_str()) {
            assert(entries[i as int].0 == key_spec);
            assert(exists|k: int| 0 <= k < entries.len() && #[trigger] entries[k].0 == key_spec);
            return Some(&entity_positions[i].1);
        }
        i += 1;
    }
    assert(!exists|k: int| 0 <= k < entries.len() && #[trigger] entries[k].0 == key_spec);
    let mut prefix = entity_name.to_string();
    push_char(&mut prefix, '_');
    assert(prefix@ == prefix_spec);
    let mut closest: Option<usize> = None;
    let mut closest_distance: usize = usize::MAX;
    let mut k: usize = 0;
    while k < n
        invariant
            n == entries.len(),
            entries == key_views(entity_positions@),
            prefix@ == prefix_spec,
            prefix_spec == entity_name@ + seq!['_'],
            k <= n,
            match closest {
                None => {
                    &&& closest_distance == usize::MAX
                    &&& forall|j: int| 0 <= j < k ==> !is_candidate(entries, prefix_spec, slice_index, j)
                },
                Some(c) => {
                    &&& c < k
                    &&& is_candidate(entries, prefix_spec, slice_index, c as int)
                    &&& closest_distance == slice_distance(entries[c as int].1.slice_index, slice_index)
                    &&& forall|j: int| 0 <= j < k && #[trigger] is_candidate(entries, prefix_spec, slice_index, j) ==>
                            closest_distance <= slice_distance(entries[j].1.slice_index, slice_index)
                    &&& forall|j: int| 0 <= j < c && #[trigger] is_candidate(entries, prefix_spec, slice_index, j) ==>
                            closest_distance < slice_distance(entries[j].1.slice_index, slice_index)
                },
            },
        decreases n - k,
    {
        let pos = &entity_positions[k].1;
        if starts_with(entity_positions[k].0.as_str(), prefix.as_str()) {
            let distance = if pos.slice_index > slice_index {
                pos.slice_index - slice_index
            } else {
                slice_index - pos.slice_index
            };
            if distance < closest_distance {
                closest_distance = distance;
                closest = Some(k);
            }
        }
        k += 1;
    }
    match closest {
        Some(c) => {
            assert(is_nearest(entries, prefix_spec, slice_index, c as int));
            Some(&entity_positions[c].1)
        },
        None => {
            assert(!exists|j: int| #[trigger] is_candidate(entries, prefix_spec, slice_index, j));
            None
        },
    }
}

/// The edge point a connection between `from` and `to` leaves `from` by
/// (`source`) or enters `to` by: it goes horizontally when the centres are
/// further apart horizontally than vertically, else vertically, from the
/// facing edge's midpoint.
pub open spec fn connection_points_of(from: EntityPosition, to: EntityPosition) -> (Point, Point) {
    let fcx = from.x + from.width / 2;
    let fcy = from.y + from.height / 2;
    let tcx = to.x + to.width / 2;
    let tcy = to.y + to.height / 2;
    let dx = tcx - fcx;
    let dy = tcy - fcy;
    let horizontal = abs_int(dx) > abs_int(dy);
    let from_point = if horizontal {
        if dx > 0 {
            Point { x: (from.x + from.width) as u32, y: (from.y + from.height / 2) as u32 }
        } else {
            Point { x: from.x, y: (from.y + from.height / 2) as u32 }
        }
    } else {
        if dy > 0 {
            Point { x: (from.x + from.width / 2) as u32, y: (from.y + from.height) as u32 }
        } else {
            Point { x: (from.x + from.width / 2) as u32, y: from.y }
        }
    };
    let to_point = if horizontal {
        if dx > 0 {
            Point { x: to.x, y: (to.y + to.height / 2) as u32 }
        } else {
            Point { x: (to.x + to.width) as u32, y: (to.y + to.height / 2) as u32 }
        }
    } else {
        if dy > 0 {
            Point { x: (to.x + to.width / 2) as u32, y: to.y }
        } else {
            Point { x: (to.x + to.width / 2) as u32, y: (to.y + to.height) as u32 }
        }
    };
    (from_point, to_point)
}

/// The absolute value of `v`.
pub open spec fn abs_int(v: int) -> int {
    if v < 0 { -v } else { v }
}

/// Whether the edges of `p` fit in `u32` and its centre in `i32`.
pub open spec fn position_fits(p: EntityPosition) -> bool {
    &&& p.x + p.width <= u32::MAX
    &&& p.y + p.height <= u32::MAX
    &&& p.x + p.width / 2 <= i32::MAX
    &&& p.y + p.height / 2 <= i32::MAX
}

/// Calculates the points a connection leaves `from` and enters `to` by.
pub fn calculate_connection_points(from: &EntityPosition, to: &EntityPosition) -> (r: (Point, Point))
    requires
        position_fits(*from),
        position_fits(*to),
    ensures
        r == connection_points_of(*from, *to),
{
    let from_center_x = from.x + from.width / 2;
    let from_center_y = from.y + from.height / 2;
    let to_center_x = to.x + to.width / 2;
    let to_center_y = to.y + to.height / 2;
    let dx: i64 = to_center_x as i64 - from_center_x as i64;
    let dy: i64 = to_center_y as i64 - from_center_y as i64;
    let abs_dx: i64 = if dx < 0 { -dx } else { dx };
    let abs_dy: i64 = if dy < 0 { -dy } else { dy };
    let horizontal = abs_dx > abs_dy;
    let from_point = if horizontal {
        if dx > 0 {
            Point { x: from.x + from.width, y: from.y + from.height / 2 }
        } else {
            Point { x: from.x, y: from.y + from.height / 2 }
        }
    } else {
        if dy > 0 {
            Point { x: from.x + from.width / 2, y: from.y + from.height }
        } else {
            Point { x: from.x + from.width / 2, y: from.y }
        }
    };
    let to_point = if horizontal {
        if dx > 0 {
            Point { x: to.x, y: to.y + to.height / 2 }
        } else {
            Point { x: to.x + to.width, y: to.y + to.height / 2 }
        }
    } else {
        if dy > 0 {
            Point { x: to.x + to.width / 2, y: to.y }
        } else {
            Point { x: to.x + to.width / 2, y: to.y + to.height }
        }
    };
    (from_point, to_point)
}

} // verus!
