//! The connections: an arrow for each connection of each slice, between
//! the instances of its entities nearest to the slice.

use super::frame::{num, push_num};
use super::placement::{Placed, PlacedEntity, placed_view, placed_views};
use crate::event_model::yaml_types::Slice;
use crate::infrastructure::text::{append_str, push_char, push_decimal};
use crate::routing::event_model_router::{
    extract_entity_name, find_entity_position, key_views, lemma_picked, picked_position, position_key, reference_name,
    EntityPosition,
};
use vstd::prelude::*;

verus! {

broadcast use crate::infrastructure::types::lemma_non_empty_len;

/// How far an arrow's lead line reaches out of an entity.
pub const MIN_ARROW_EXTENSION: u32 = 30;

/// The absolute value of `v`.
pub open spec fn abs(v: int) -> int {
    if v < 0 {
        -v
    } else {
        v
    }
}

/// Where a connection leaves (`is_source`) or enters entity `e`, given the
/// other entity `o`: the middle of the side facing the other entity's
/// centre for a source, of the opposite side for a target; the sides are
/// the left and right ones when the centres are further apart horizontally
/// than vertically, else the top and bottom ones.
pub open spec fn connection_point(e: EntityPosition, o: EntityPosition, is_source: bool) -> (int, int) {
    let ecx = e.x + e.width / 2;
    let ecy = e.y + e.height / 2;
    let dx = (o.x + o.width / 2) - ecx;
    let dy = (o.y + o.height / 2) - ecy;
    if abs(dx) > abs(dy) {
        if (dx > 0) == is_source {
            (e.x + e.width, ecy)
        } else {
            (e.x as int, ecy)
        }
    } else {
        if (dy > 0) == is_source {
            (ecx, e.y + e.height)
        } else {
            (ecx, e.y as int)
        }
    }
}

/// `pt` moved `ext` away from the side of `e` it lies on (not below zero);
/// unmoved if it lies on no side.
pub open spec fn extended(pt: (int, int), e: EntityPosition, ext: int) -> (int, int) {
    if pt.0 == e.x {
        (if pt.0 - ext > 0 { pt.0 - ext } else { 0 }, pt.1)
    } else if pt.0 == e.x + e.width {
        (pt.0 + ext, pt.1)
    } else if pt.1 == e.y {
        (pt.0, if pt.1 - ext > 0 { pt.1 - ext } else { 0 })
    } else if pt.1 == e.y + e.height {
        (pt.0, pt.1 + ext)
    } else {
        pt
    }
}

/// The path from `a` to `b`: straight when they share a coordinate, else
/// horizontal to the middle, vertical, and horizontal again.
pub open spec fn path_data(a: (int, int), b: (int, int)) -> Seq<char> {
    "M "@ + num(a.0) + " "@ + num(a.1) + path_tail(a, b)
}

/// The path's segments after its start.
pub open spec fn path_tail(a: (int, int), b: (int, int)) -> Seq<char> {
    if a.0 == b.0 || a.1 == b.1 {
        " L "@ + num(b.0) + " "@ + num(b.1)
    } else {
        let mid = if a.0 < b.0 { a.0 + (b.0 - a.0) / 2 } else { b.0 + (a.0 - b.0) / 2 };
        " L "@ + num(mid) + " "@ + num(a.1) + " L "@ + num(mid) + " "@ + num(b.1) + " L "@ + num(b.0) + " "@ + num(b.1)
    }
}

/// The arrow from `from` to `to`.
pub open spec fn arrow_svg(from: EntityPosition, to: EntityPosition) -> Seq<char> {
    let a = extended(connection_point(from, to, true), from, MIN_ARROW_EXTENSION as int);
    let b = extended(connection_point(to, from, false), to, MIN_ARROW_EXTENSION as int);
    "  <path d=\""@ + path_data(a, b)
        + "\" fill=\"none\" stroke=\"#333333\" stroke-width=\"2\" marker-end=\"url(#arrowhead)\" />\n"@
}

/// The position record of a placed entity.
pub open spec fn position_of(p: Placed) -> EntityPosition {
    EntityPosition {
        x: p.x as u32,
        y: p.y as u32,
        width: p.width as u32,
        height: p.height as u32,
        slice_index: p.slice as usize,
    }
}

/// The placed entities recorded by key: name, `_` and slice number.
pub open spec fn positions_of(placed: Seq<Placed>) -> Seq<(Seq<char>, EntityPosition)> {
    placed.map_values(|p: Placed| (position_key(p.name, p.slice as nat), position_of(p)))
}

/// The arrow for connection `k` of slice `i`, when both of its entities
/// have been placed somewhere.
pub open spec fn connection_svg(positions: Seq<(Seq<char>, EntityPosition)>, slices: Seq<Slice>, i: int, k: int) -> Seq<char> {
    let c = slices[i].connections@[k];
    match (
        picked_position(positions, reference_name(c.from), i as usize),
        picked_position(positions, reference_name(c.to), i as usize),
    ) {
        (Some(a), Some(b)) => arrow_svg(a, b),
        _ => Seq::empty(),
    }
}

/// The arrows of slice `i`.
pub open spec fn slice_connections_svg(positions: Seq<(Seq<char>, EntityPosition)>, slices: Seq<Slice>, i: int) -> Seq<char> {
    Seq::new(slices[i].connections@.len(), |k: int| connection_svg(positions, slices, i, k)).flatten()
}

/// All arrows, slice by slice.
pub open spec fn connections_svg(positions: Seq<(Seq<char>, EntityPosition)>, slices: Seq<Slice>) -> Seq<char> {
    "  <!-- Connections -->\n"@ + Seq::new(slices.len(), |i: int| slice_connections_svg(positions, slices, i)).flatten()
}

/// The point where a connection attaches to `e`.
pub(crate) fn calculate_connection_point(e: &EntityPosition, o: &EntityPosition, is_source: bool) -> (r: (u64, u64))
    ensures
        (r.0 as int, r.1 as int) == connection_point(*e, *o, is_source),
{
    let ecx = e.x as u64 + e.width as u64 / 2;
    let ecy = e.y as u64 + e.height as u64 / 2;
    let dx: i64 = (o.x as u64 + o.width as u64 / 2) as i64 - ecx as i64;
    let dy: i64 = (o.y as u64 + o.height as u64 / 2) as i64 - ecy as i64;
    let abs_dx: i64 = if dx < 0 { -dx } else { dx };
    let abs_dy: i64 = if dy < 0 { -dy } else { dy };
    if abs_dx > abs_dy {
        if (dx > 0) == is_source {
            (e.x as u64 + e.width as u64, ecy)
        } else {
            (e.x as u64, ecy)
        }
    } else {
        if (dy > 0) == is_source {
            (ecx, e.y as u64 + e.height as u64)
        } else {
            (ecx, e.y as u64)
        }
    }
}

/// Extends a connection point away from an entity by the specified
/// distance.
fn extend_connection_point(x: u64, y: u64, e: &EntityPosition, extension: u64) -> (r: (u64, u64))
    requires
        x <= 0x2_0000_0000,
        y <= 0x2_0000_0000,
        extension <= 0x1000,
    ensures
        (r.0 as int, r.1 as int) == extended((x as int, y as int), *e, extension as int),
{
    if x == e.x as u64 {
        (if x > extension { x - extension } else { 0 }, y)
    } else if x == e.x as u64 + e.width as u64 {
        (x + extension, y)
    } else if y == e.y as u64 {
        (x, if y > extension { y - extension } else { 0 })
    } else if y == e.y as u64 + e.height as u64 {
        (x, y + extension)
    } else {
        (x, y)
    }
}

/// Appends ` L x y`.
fn push_point(s: &mut String, x: u64, y: u64)
    ensures
        final(s)@ == old(s)@ + " L "@ + num(x as int) + " "@ + num(y as int),
{
    append_str(s, " L ");
    push_num(s, x);
    append_str(s, " ");
    push_num(s, y);
    assert(final(s)@ =~= old(s)@ + " L "@ + num(x as int) + " "@ + num(y as int));
}

/// Appends the path from (`ax`, `ay`) to (`bx`, `by`).
fn push_path(s: &mut String, ax: u64, ay: u64, bx: u64, by: u64)
    ensures
        final(s)@ == old(s)@ + path_data((ax as int, ay as int), (bx as int, by as int)),
{
    append_str(s, "M ");
    push_num(s, ax);
    append_str(s, " ");
    push_num(s, ay);
    let ghost start = s@;
    push_path_tail(s, ax, ay, bx, by);
    assert(final(s)@ =~= old(s)@ + path_data((ax as int, ay as int), (bx as int, by as int)));
}

/// Appends the path's segments after its start.
fn push_path_tail(s: &mut String, ax: u64, ay: u64, bx: u64, by: u64)
    ensures
        final(s)@ == old(s)@ + path_tail((ax as int, ay as int), (bx as int, by as int)),
{
    if ax == bx || ay == by {
        push_point(s, bx, by);
    } else {
        let mid = if ax < bx { ax + (bx - ax) / 2 } else { bx + (ax - bx) / 2 };
        let ghost s0 = s@;
        push_point(s, mid, ay);
        let ghost s1 = s@;
        push_point(s, mid, by);
        let ghost s2 = s@;
        push_point(s, bx, by);
        assert(final(s)@ =~= old(s)@ + path_tail((ax as int, ay as int), (bx as int, by as int)));
    }
}

/// Appends the arrow from `from` to `to`.
fn push_arrow(s: &mut String, from: &EntityPosition, to: &EntityPosition)
    ensures
        final(s)@ == old(s)@ + arrow_svg(*from, *to),
{
    let (fx, fy) = calculate_connection_point(from, to, true);
    let (tx, ty) = calculate_connection_point(to, from, false);
    let (ax, ay) = extend_connection_point(fx, fy, from, MIN_ARROW_EXTENSION as u64);
    let (bx, by) = extend_connection_point(tx, ty, to, MIN_ARROW_EXTENSION as u64);
    append_str(s, "  <path d=\"");
    push_path(s, ax, ay, bx, by);
    append_str(s, "\" fill=\"none\" stroke=\"#333333\" stroke-width=\"2\" marker-end=\"url(#arrowhead)\" />\n");
    assert(final(s)@ =~= old(s)@ + arrow_svg(*from, *to));
}

/// The placed entities recorded by key.
pub fn record_positions(placed: &Vec<PlacedEntity>) -> (r: Vec<(String, EntityPosition)>)
    ensures
        key_views(r@) == positions_of(placed_views(placed@)),
{
    let mut out: Vec<(String, EntityPosition)> = Vec::new();
    let n = placed.len();
    for k in 0..n
        invariant
            n == placed@.len(),
            key_views(out@) == positions_of(placed_views(placed@)).take(k as int),
    {
        let p = &placed[k];
        let mut key = p.name.clone();
        push_char(&mut key, '_');
        push_decimal(&mut key, p.position.slice_index as u64);
        let ghost before = key_views(out@);
        proof {
            let pv = placed_view(placed@[k as int]);
            assert(position_of(pv) == p.position);
            assert(key@ == position_key(pv.name, pv.slice as nat));
        }
        out.push((key, p.position));
        proof {
            assert(placed_views(placed@)[k as int] == placed_view(placed@[k as int]));
            assert(key_views(out@) =~= before.push(positions_of(placed_views(placed@))[k as int]));
            assert(positions_of(placed_views(placed@)).take(k + 1) =~= positions_of(placed_views(placed@)).take(k as int).push(
                positions_of(placed_views(placed@))[k as int],
            ));
        }
    }
    assert(positions_of(placed_views(placed@)).take(n as int) =~= positions_of(placed_views(placed@)));
    out
}

/// Appends the arrow for one connection of slice `i`, when both of its
/// entities have been placed somewhere.
fn push_connection(s: &mut String, slices: &[Slice], i: usize, k: usize, positions: &Vec<(String, EntityPosition)>)
    requires
        i < slices@.len(),
        k < slices@[i as int].connections@.len(),
    ensures
        final(s)@ == old(s)@ + connection_svg(key_views(positions@), slices@, i as int, k as int),
{
    let c = slices[i].connections.get(k);
    let from_name = extract_entity_name(&c.from);
    let to_name = extract_entity_name(&c.to);
    let from_pos = find_entity_position(from_name.as_str(), i, positions);
    let to_pos = find_entity_position(to_name.as_str(), i, positions);
    proof {
        lemma_picked(key_views(positions@), from_name@, i, match from_pos {
            Some(p) => Some(*p),
            None => None,
        });
        lemma_picked(key_views(positions@), to_name@, i, match to_pos {
            Some(p) => Some(*p),
            None => None,
        });
    }
    match (from_pos, to_pos) {
        (Some(a), Some(b)) => push_arrow(s, a, b),
        _ => {
            assert(final(s)@ =~= old(s)@ + Seq::<char>::empty());
        },
    }
}

/// Renders connection arrows between entities based on slice definitions.
pub fn render_connections(slices: &[Slice], positions: &Vec<(String, EntityPosition)>) -> (r: String)
    requires
        forall|i: int| 0 <= i < slices@.len() ==> (#[trigger] slices@[i]).connections@.len() <= usize::MAX,
    ensures
        r@ == connections_svg(key_views(positions@), slices@),
{
    let ghost pos = key_views(positions@);
    let mut s = String::new();
    append_str(&mut s, "  <!-- Connections -->\n");
    let ghost head = s@;
    let ns = slices.len();
    let mut i: usize = 0;
    assert(s@ =~= head + Seq::new(0, |q: int| slice_connections_svg(pos, slices@, q)).flatten());
    while i < ns
        invariant
            ns == slices@.len(),
            pos == key_views(positions@),
            forall|i: int| 0 <= i < slices@.len() ==> (#[trigger] slices@[i]).connections@.len() <= usize::MAX,
            i <= ns,
            s@ == head + Seq::new(i as nat, |q: int| slice_connections_svg(pos, slices@, q)).flatten(),
        decreases ns - i,
    {
        let ghost base = s@;
        let nc = slices[i].connections.len();
        let mut k: usize = 0;
        assert(s@ =~= base + Seq::new(0, |q: int| connection_svg(pos, slices@, i as int, q)).flatten());
        while k < nc
            invariant
                ns == slices@.len(),
                pos == key_views(positions@),
                i < ns,
                nc == slices@[i as int].connections@.len(),
                k <= nc,
                s@ == base + Seq::new(k as nat, |q: int| connection_svg(pos, slices@, i as int, q)).flatten(),
            decreases nc - k,
        {
            let ghost before = s@;
            push_connection(&mut s, slices, i, k, positions);
            proof {
                let piece = connection_svg(pos, slices@, i as int, k as int);
                let prev = Seq::new(k as nat, |q: int| connection_svg(pos, slices@, i as int, q));
                prev.lemma_flatten_push(piece);
                assert(Seq::new((k + 1) as nat, |q: int| connection_svg(pos, slices@, i as int, q)) =~= prev.push(piece));
                assert(before + piece =~= base + (prev.flatten() + piece));
            }
            k += 1;
        }
        proof {
            let piece = slice_connections_svg(pos, slices@, i as int);
            let prev = Seq::new(i as nat, |q: int| slice_connections_svg(pos, slices@, q));
            prev.lemma_flatten_push(piece);
            assert(Seq::new((i + 1) as nat, |q: int| slice_connections_svg(pos, slices@, q)) =~= prev.push(piece));
        }
        i += 1;
    }
    s
}

} // verus!
