//! Where each entity box goes: slice by slice, swimlane by swimlane, side
//! by side within its slice and centred in its swimlane.

use super::catalog::{box_height, box_width, dims_for, entry_view, names_measurable, CatalogEntry, EntityKind, EntryView};
use super::measure::{
    cat_view, endpoint_count, entity_info, first_lane, first_lane_from, first_lane_index, group_slice, lane_demands,
    lane_height, lane_heights, last_lane, last_lane_index, lemma_max_from_bounds, lemma_sum_bounds, max_from, name_known,
    required_width, slice_group, slice_lanes, slice_requirements, slice_width, slice_widths, str_views, sum,
    ENTITY_MARGIN,
};
use crate::event_model::yaml_types::{Slice, Swimlane};
use crate::routing::event_model_router::EntityPosition;
use crate::infrastructure::text::str_equal;
use crate::infrastructure::types::NonEmpty;
use vstd::prelude::*;

verus! {

broadcast use crate::infrastructure::types::lemma_non_empty_len;

/// Width of the swimlane label column, where the first slice starts.
pub const SWIMLANE_LABEL_WIDTH: u32 = 80;

/// Where the first swimlane starts: below the title and slice headers.
pub const SWIMLANES_START_Y: u32 = 80;

/// A placed entity as the specifications see it.
pub struct Placed {
    /// Its name.
    pub name: Seq<char>,
    /// The slice it is placed in.
    pub slice: int,
    /// Left edge.
    pub x: int,
    /// Top edge.
    pub y: int,
    /// Width.
    pub width: int,
    /// Height.
    pub height: int,
    /// The kind its box is drawn as.
    pub kind: EntityKind,
}

/// The kind of the first entity named `name` from entry `j` on.
pub open spec fn first_kind_from(cat: Seq<EntryView>, name: Seq<char>, j: int) -> EntityKind
    decreases cat.len() - j,
{
    if j < 0 || j >= cat.len() {
        EntityKind::View
    } else if cat[j].1 == name {
        cat[j].0
    } else {
        first_kind_from(cat, name, j + 1)
    }
}

/// The kind a box named `name` is drawn as: that of the first entity with
/// the name, views first, then commands, events, projections, queries and
/// automations.
pub open spec fn box_kind(cat: Seq<EntryView>, name: Seq<char>) -> EntityKind {
    first_kind_from(cat, name, 0)
}

/// The left edge of slice `i`.
pub open spec fn slice_left(widths: Seq<int>, i: int) -> int {
    SWIMLANE_LABEL_WIDTH + sum(widths.take(i))
}

/// The top edge of swimlane `j`.
pub open spec fn lane_top(heights: Seq<int>, j: int) -> int {
    SWIMLANES_START_Y + sum(heights.take(j))
}

/// Entity `k` of those slice `i` shows in swimlane `lane`, placed: a lone
/// entity is centred in the slice, several stand side by side from the
/// slice's left edge with a margin before each; vertically the box is
/// centred on the height of the first swimlane with the id, from the top of
/// the last one.
pub open spec fn placed_at(cat: Seq<EntryView>, lanes: Seq<Swimlane>, slices: Seq<Slice>, i: int, lane: Seq<char>, k: int) -> Placed {
    let names = slice_group(cat, slices[i], lane);
    let n = names[k];
    let w = box_width(cat, n);
    let h = box_height(cat, n);
    let widths = slice_widths(cat, slices);
    let heights = lane_heights(cat, lanes);
    let left = slice_left(widths, i);
    let x = if names.len() == 1 {
        left + (widths[i] - w) / 2
    } else {
        left + ENTITY_MARGIN + sum(names.take(k).map_values(|m: Seq<char>| box_width(cat, m))) + k * ENTITY_MARGIN
    };
    let y = lane_top(heights, last_lane_index(lanes, lane)->0) + (heights[first_lane(lanes, lane)->0] - h) / 2;
    Placed { name: n, slice: i, x, y, width: w, height: h, kind: box_kind(cat, n) }
}

/// The entities slice `i` shows in swimlane `lane`, placed; none when no
/// swimlane has that id.
pub open spec fn lane_placements(cat: Seq<EntryView>, lanes: Seq<Swimlane>, slices: Seq<Slice>, i: int, lane: Seq<char>) -> Seq<Placed> {
    if last_lane_index(lanes, lane) is Some {
        Seq::new(slice_group(cat, slices[i], lane).len(), |k: int| placed_at(cat, lanes, slices, i, lane, k))
    } else {
        Seq::empty()
    }
}

/// The entities slice `i` shows, placed, swimlane by swimlane in the order
/// the swimlanes first appear in its connections.
pub open spec fn slice_placements(cat: Seq<EntryView>, lanes: Seq<Swimlane>, slices: Seq<Slice>, i: int) -> Seq<Placed> {
    let ls = slice_lanes(cat, slices[i]);
    Seq::new(ls.len(), |j: int| lane_placements(cat, lanes, slices, i, ls[j])).flatten()
}

/// All placed entities, slice by slice.
pub open spec fn placements(cat: Seq<EntryView>, lanes: Seq<Swimlane>, slices: Seq<Slice>) -> Seq<Placed> {
    Seq::new(slices.len(), |i: int| slice_placements(cat, lanes, slices, i)).flatten()
}

/// The kind of the box drawn for `name`.
pub fn box_kind_of(cat: &Vec<CatalogEntry>, name: &str) -> (r: EntityKind)
    ensures
        r == box_kind(cat_view(*cat), name@),
{
    let ghost cv = cat_view(*cat);
    let n = cat.len();
    let mut j: usize = 0;
    while j < n
        invariant
            n == cv.len(),
            cv == cat_view(*cat),
            j <= n,
            box_kind(cv, name@) == first_kind_from(cv, name@, j as int),
        decreases n - j,
    {
        assert(cv[j as int] == entry_view(cat@[j as int]));
        if str_equal(cat[j].name.as_str(), name) {
            return cat[j].kind;
        }
        j += 1;
    }
    EntityKind::View
}

/// The index of the last swimlane with id `id`.
pub fn last_lane_index_of(lanes: &NonEmpty<Swimlane>, id: &str) -> (r: Option<usize>)
    requires
        lanes@.len() <= usize::MAX,
    ensures
        match r {
            Some(i) => last_lane_index(lanes@, id@) == Some(i as int),
            None => last_lane_index(lanes@, id@) is None,
        },
{
    let mut i = lanes.len();
    assert(lanes@.take(i as int) =~= lanes@);
    while i > 0
        invariant
            i <= lanes@.len(),
            last_lane_index(lanes@, id@) == last_lane_index(lanes@.take(i as int), id@),
        decreases i,
    {
        assert(lanes@.take(i as int).drop_last() =~= lanes@.take(i - 1));
        if str_equal(lanes.get(i - 1).id.clone().into_inner().as_str(), id) {
            return Some(i - 1);
        }
        i -= 1;
    }
    None
}

/// The numbers of `v` as integers.
pub open spec fn u32_ints(v: Seq<u32>) -> Seq<int> {
    v.map_values(|x: u32| x as int)
}

/// An entity placed in the diagram.
#[derive(Debug, Clone)]
pub struct PlacedEntity {
    /// Its name.
    pub name: String,
    /// The kind its box is drawn as.
    pub kind: EntityKind,
    /// Where its box is.
    pub position: EntityPosition,
    /// The lines of its name.
    pub text_lines: Vec<String>,
}

/// Each placed entity carries the lines of its name, and its box is as
/// high as the name's box.
pub open spec fn lines_hold(cat: Seq<EntryView>, v: Seq<PlacedEntity>) -> bool {
    forall|k: int| 0 <= k < v.len() ==> {
        &&& str_views((#[trigger] v[k]).text_lines@) == super::catalog::box_lines(v[k].name@)
        &&& v[k].position.height == box_height(cat, v[k].name@)
    }
}

/// The view of a placed entity.
pub open spec fn placed_view(p: PlacedEntity) -> Placed {
    Placed {
        name: p.name@,
        slice: p.position.slice_index as int,
        x: p.position.x as int,
        y: p.position.y as int,
        width: p.position.width as int,
        height: p.position.height as int,
        kind: p.kind,
    }
}

/// A last swimlane with an id is also found first.
proof fn lemma_last_then_first(lanes: Seq<Swimlane>, id: Seq<char>)
    ensures
        last_lane_index(lanes, id) matches Some(x) ==> 0 <= x < lanes.len() && lanes[x].id@ == id
            && first_lane(lanes, id) is Some,
    decreases lanes.len(),
{
    if lanes.len() > 0 && lanes.last().id@ != id {
        lemma_last_then_first(lanes.drop_last(), id);
        if last_lane_index(lanes, id) is Some {
            let x = last_lane_index(lanes, id)->0;
            assert(lanes[x] == lanes.drop_last()[x]);
        }
    }
    if last_lane_index(lanes, id) is Some {
        let x = last_lane_index(lanes, id)->0;
        lemma_first_found(lanes, id, 0, x);
    }
}

/// A swimlane with the id at or after `j` is found from `j` on.
proof fn lemma_first_found(lanes: Seq<Swimlane>, id: Seq<char>, j: int, x: int)
    requires
        0 <= j <= x < lanes.len(),
        lanes[x].id@ == id,
    ensures
        first_lane_from(lanes, id, j) matches Some(f) && 0 <= f < lanes.len() && lanes[f].id@ == id,
    decreases x - j,
{
    if lanes[j].id@ != id {
        lemma_first_found(lanes, id, j + 1, x);
    }
}

/// The entity found for a reference is an entity of the catalog in the
/// swimlane found.
proof fn lemma_last_lane_entry(cat: Seq<EntryView>, kind: EntityKind, name: Seq<char>)
    ensures
        last_lane(cat, kind, name) matches Some(l) ==> exists|k: int| 0 <= k < cat.len() && (#[trigger] cat[k]).1 == name && cat[k].2 == l,
    decreases cat.len(),
{
    if cat.len() > 0 {
        if cat.last().0 == kind && cat.last().1 == name {
            assert(cat[cat.len() - 1].1 == name);
        } else {
            lemma_last_lane_entry(cat.drop_last(), kind, name);
            if last_lane(cat, kind, name) is Some {
                let l = last_lane(cat, kind, name)->0;
                let k = choose|k: int| 0 <= k < cat.drop_last().len() && (#[trigger] cat.drop_last()[k]).1 == name && cat.drop_last()[k].2 == l;
                assert(cat[k] == cat.drop_last()[k]);
            }
        }
    }
}

/// Whether the catalog has an entity named `n` in swimlane `lane`.
pub open spec fn in_lane_entry(cat: Seq<EntryView>, n: Seq<char>, lane: Seq<char>) -> bool {
    exists|e: int| 0 <= e < cat.len() && (#[trigger] cat[e]).1 == n && cat[e].2 == lane
}

/// Each entity a slice shows in a swimlane is an entity of the catalog in
/// that swimlane.
proof fn lemma_group_in_lane(cat: Seq<EntryView>, s: Slice, k: int, lane: Seq<char>)
    ensures
        forall|j: int| 0 <= j < super::measure::group_upto(cat, s, k, lane).len() ==> in_lane_entry(
            cat,
            #[trigger] super::measure::group_upto(cat, s, k, lane)[j],
            lane,
        ),
    decreases k,
{
    if k > 0 {
        lemma_group_in_lane(cat, s, k - 1, lane);
        let r = super::measure::endpoint(s, k - 1);
        lemma_last_lane_entry(cat, super::measure::ref_kind(r), crate::routing::event_model_router::reference_name(r));
        let prev = super::measure::group_upto(cat, s, k - 1, lane);
        let cur = super::measure::group_upto(cat, s, k, lane);
        assert forall|j: int| 0 <= j < cur.len() implies in_lane_entry(cat, #[trigger] cur[j], lane) by {
            if j < prev.len() {
                assert(cur[j] == prev[j]);
            }
        }
    }
}

/// The sum of the first `upto` numbers.
pub fn prefix_sum(v: &Vec<u32>, upto: usize) -> (r: u32)
    requires
        upto <= v@.len(),
        sum(u32_ints(v@)) <= 0x1000_0000,
    ensures
        r == sum(u32_ints(v@).take(upto as int)),
{
    let ghost s = u32_ints(v@);
    proof {
        lemma_sum_bounds(s, upto as int);
    }
    let mut total: u32 = 0;
    for i in 0..upto
        invariant
            upto <= v@.len(),
            s == u32_ints(v@),
            forall|j: int| 0 <= j < s.len() ==> 0 <= #[trigger] s[j],
            sum(s) <= 0x1000_0000,
            total == sum(s.take(i as int)),
    {
        proof {
            lemma_sum_bounds(s, i + 1);
            assert(s.take(i + 1).drop_last() =~= s.take(i as int));
        }
        total = total + v[i];
    }
    total
}

/// The views of placed entities.
pub open spec fn placed_views(v: Seq<PlacedEntity>) -> Seq<Placed> {
    v.map_values(|p: PlacedEntity| placed_view(p))
}

/// What placing needs to hold of the measured sizes.
pub open spec fn sizes_hold(
    cat: Seq<EntryView>,
    lanes: Seq<Swimlane>,
    slices: Seq<Slice>,
    widths: Seq<u32>,
    heights: Seq<u32>,
) -> bool {
    &&& names_measurable(cat)
    &&& lanes.len() <= usize::MAX
    &&& forall|i: int| 0 <= i < slices.len() ==> endpoint_count(#[trigger] slices[i]) <= usize::MAX
    &&& u32_ints(widths) == slice_widths(cat, slices)
    &&& u32_ints(heights) == lane_heights(cat, lanes)
    &&& SWIMLANE_LABEL_WIDTH + sum(u32_ints(widths)) <= 0x1000_0000
    &&& SWIMLANES_START_Y + sum(u32_ints(heights)) <= 0x1000_0000
}

/// Appends the entities slice `i` shows in swimlane `lane`, placed.
fn place_lane(
    cat: &Vec<CatalogEntry>,
    lanes: &NonEmpty<Swimlane>,
    slices: &[Slice],
    widths: &Vec<u32>,
    heights: &Vec<u32>,
    i: usize,
    left: u32,
    lane: &String,
    names: &Vec<String>,
    Ghost(j): Ghost<int>,
    out: &mut Vec<PlacedEntity>,
)
    requires
        sizes_hold(cat_view(*cat), lanes@, slices@, widths@, heights@),
        i < slices@.len(),
        left == slice_left(u32_ints(widths@), i as int),
        0 <= j < slice_lanes(cat_view(*cat), slices@[i as int]).len(),
        slice_lanes(cat_view(*cat), slices@[i as int])[j] == lane@,
        str_views(names@) == slice_group(cat_view(*cat), slices@[i as int], lane@),
        lines_hold(cat_view(*cat), old(out)@),
    ensures
        placed_views(final(out)@) == placed_views(old(out)@) + lane_placements(cat_view(*cat), lanes@, slices@, i as int, lane@),
        lines_hold(cat_view(*cat), final(out)@),
{
    let ghost cv = cat_view(*cat);
    let ghost sl = slices@;
    let ghost ww = u32_ints(widths@);
    let ghost hh = u32_ints(heights@);
    let ghost base = placed_views(out@);
    let ghost group = str_views(names@);
    let ghost gw = group.map_values(|m: Seq<char>| box_width(cv, m));
    match last_lane_index_of(lanes, lane.as_str()) {
        None => {
            assert(placed_views(out@) =~= base + Seq::<Placed>::empty());
        },
        Some(yl) => {
            proof {
                lemma_last_then_first(lanes@, lane@);
            }
            let f = match first_lane_index(lanes, lane.as_str()) {
                Some(f) => f,
                None => {
                    return;
                },
            };
            proof {
                super::measure::lemma_first_lane_range(lanes@, lane@, 0);
                lemma_sum_bounds(ww, i as int);
                lemma_sum_bounds(hh, yl as int);
                lemma_sum_bounds(hh, f as int);
                lemma_max_from_bounds(super::measure::MIN_SLICE_WIDTH as int, slice_requirements(cv, sl[i as int]));
                assert(slice_requirements(cv, sl[i as int])[j] == required_width(cv, group));
                assert(ww[i as int] == slice_width(cv, sl[i as int]));
                lemma_group_in_lane(cv, sl[i as int], endpoint_count(sl[i as int]), lane@);
                assert forall|q: int| 0 <= q < gw.len() implies 0 <= #[trigger] gw[q] by {}
                lemma_sum_bounds(gw, gw.len() as int);
                assert(gw.take(gw.len() as int) =~= gw);
                lemma_max_from_bounds(0, lane_demands(cv, lanes@, f as int));
                assert(hh[f as int] == lane_height(cv, lanes@, f as int));
            }
            let top = SWIMLANES_START_Y + prefix_sum(heights, yl);
            let lane_h = heights[f];
            assert forall|e: int| 0 <= e < cv.len() && cv[e].2 == lane@ implies box_height(cv, #[trigger] cv[e].1) + 2 * ENTITY_MARGIN <= lane_h by {
                assert(lane_demands(cv, lanes@, f as int)[e] == box_height(cv, cv[e].1) + 2 * ENTITY_MARGIN);
            }
            let sw = widths[i];
            let count = names.len();
            let mut cum: u32 = ENTITY_MARGIN;
            let mut k: usize = 0;
            while k < count
                invariant
                    sizes_hold(cv, lanes@, sl, widths@, heights@),
                    cv == cat_view(*cat),
                    sl == slices@,
                    ww == u32_ints(widths@),
                    hh == u32_ints(heights@),
                    group == str_views(names@),
                    gw == group.map_values(|m: Seq<char>| box_width(cv, m)),
                    forall|q: int| 0 <= q < gw.len() ==> 0 <= #[trigger] gw[q],
                    group == slice_group(cv, sl[i as int], lane@),
                    forall|q: int| 0 <= q < group.len() ==> in_lane_entry(cv, #[trigger] group[q], lane@),
                    i < sl.len(),
                    count == group.len(),
                    k <= count,
                    left == slice_left(ww, i as int),
                    left + sw <= 0x1000_0000,
                    sw == ww[i as int],
                    sw == slice_width(cv, sl[i as int]),
                    required_width(cv, group) <= sw,
                    sum(gw) + (count + 1) * ENTITY_MARGIN == required_width(cv, group),
                    last_lane_index(lanes@, lane@) == Some(yl as int),
                    first_lane(lanes@, lane@) == Some(f as int),
                    f < lanes@.len(),
                    top == lane_top(hh, yl as int),
                    top <= 0x1000_0000,
                    lane_h == hh[f as int],
                    lane_h <= 0x1000_0000,
                    forall|e: int| 0 <= e < cv.len() && cv[e].2 == lane@ ==> box_height(cv, #[trigger] cv[e].1) + 2 * ENTITY_MARGIN <= lane_h,
                    cum == ENTITY_MARGIN + sum(gw.take(k as int)) + k * ENTITY_MARGIN,
                    placed_views(out@) == base + Seq::new(k as nat, |q: int| placed_at(cv, lanes@, sl, i as int, lane@, q)),
                    lines_hold(cv, out@),
                decreases count - k,
            {
                proof {
                    let e = choose|e: int| 0 <= e < cv.len() && (#[trigger] cv[e]).1 == group[k as int] && cv[e].2 == lane@;
                    assert(cv[e].1.len() <= 0x8_0000);
                    lemma_sum_bounds(gw, k + 1);
                    assert(gw.take(k + 1).drop_last() =~= gw.take(k as int));
                }
                let d = dims_for(cat, names[k].as_str());
                let x = if count == 1 {
                    left + (sw - d.width) / 2
                } else {
                    left + cum
                };
                let y = top + (lane_h - d.height) / 2;
                let kind = box_kind_of(cat, names[k].as_str());
                let ghost before = placed_views(out@);
                out.push(
                    PlacedEntity {
                        name: names[k].clone(),
                        kind,
                        position: EntityPosition { x, y, width: d.width, height: d.height, slice_index: i },
                        text_lines: d.text_lines,
                    },
                );
                proof {
                    assert(group.take(k as int).map_values(|m: Seq<char>| box_width(cv, m)) =~= gw.take(k as int));
                    assert(placed_views(out@) =~= before.push(placed_at(cv, lanes@, sl, i as int, lane@, k as int)));
                    assert(Seq::new((k + 1) as nat, |q: int| placed_at(cv, lanes@, sl, i as int, lane@, q)) =~= Seq::new(
                        k as nat,
                        |q: int| placed_at(cv, lanes@, sl, i as int, lane@, q),
                    ).push(placed_at(cv, lanes@, sl, i as int, lane@, k as int)));
                }
                cum = cum + d.width + ENTITY_MARGIN;
                k += 1;
            }
        },
    }
}

/// Places the entities of all slices, slice by slice and, within a slice,
/// swimlane by swimlane.
pub fn place_entities(
    cat: &Vec<CatalogEntry>,
    lanes: &NonEmpty<Swimlane>,
    slices: &[Slice],
    widths: &Vec<u32>,
    heights: &Vec<u32>,
) -> (r: Vec<PlacedEntity>)
    requires
        sizes_hold(cat_view(*cat), lanes@, slices@, widths@, heights@),
    ensures
        placed_views(r@) == placements(cat_view(*cat), lanes@, slices@),
        lines_hold(cat_view(*cat), r@),
{
    let ghost cv = cat_view(*cat);
    let ghost sl = slices@;
    let ghost ww = u32_ints(widths@);
    let mut out: Vec<PlacedEntity> = Vec::new();
    let mut left: u32 = SWIMLANE_LABEL_WIDTH;
    let ns = slices.len();
    let mut i: usize = 0;
    assert(placed_views(out@) =~= Seq::new(0, |q: int| slice_placements(cv, lanes@, sl, q)).flatten());
    assert(ww.take(0) =~= Seq::<int>::empty());
    while i < ns
        invariant
            sizes_hold(cv, lanes@, sl, widths@, heights@),
            cv == cat_view(*cat),
            sl == slices@,
            ww == u32_ints(widths@),
            ns == sl.len(),
            i <= ns,
            left == slice_left(ww, i as int),
            placed_views(out@) == Seq::new(i as nat, |q: int| slice_placements(cv, lanes@, sl, q)).flatten(),
            lines_hold(cv, out@),
        decreases ns - i,
    {
        proof {
            lemma_sum_bounds(ww, i as int);
            assert(ww.len() == sl.len());
        }
        let (ls, gs) = group_slice(cat, &slices[i]);
        let ghost lsv = slice_lanes(cv, sl[i as int]);
        let ghost base = placed_views(out@);
        let nl = ls.len();
        let mut j: usize = 0;
        assert(base + Seq::new(0, |q: int| lane_placements(cv, lanes@, sl, i as int, lsv[q])).flatten() =~= base);
        while j < nl
            invariant
                sizes_hold(cv, lanes@, sl, widths@, heights@),
                cv == cat_view(*cat),
                sl == slices@,
                ww == u32_ints(widths@),
                i < sl.len(),
                left == slice_left(ww, i as int),
                lsv == slice_lanes(cv, sl[i as int]),
                str_views(ls@) == lsv,
                gs@.len() == ls@.len(),
                forall|q: int| 0 <= q < ls@.len() ==> str_views(#[trigger] gs@[q]@) == slice_group(cv, sl[i as int], ls@[q]@),
                nl == ls@.len(),
                j <= nl,
                placed_views(out@) == base + Seq::new(j as nat, |q: int| lane_placements(cv, lanes@, sl, i as int, lsv[q])).flatten(),
                lines_hold(cv, out@),
            decreases nl - j,
        {
            assert(lsv[j as int] == ls@[j as int]@);
            let ghost before = placed_views(out@);
            place_lane(cat, lanes, slices, widths, heights, i, left, &ls[j], &gs[j], Ghost(j as int), &mut out);
            proof {
                let prev = Seq::new(j as nat, |q: int| lane_placements(cv, lanes@, sl, i as int, lsv[q]));
                let x = lane_placements(cv, lanes@, sl, i as int, lsv[j as int]);
                prev.lemma_flatten_push(x);
                assert(before + x =~= base + (prev.flatten() + x));
            }
            assert(Seq::new((j + 1) as nat, |q: int| lane_placements(cv, lanes@, sl, i as int, lsv[q])) =~= Seq::new(
                j as nat,
                |q: int| lane_placements(cv, lanes@, sl, i as int, lsv[q]),
            ).push(lane_placements(cv, lanes@, sl, i as int, lsv[j as int])));
            j += 1;
        }
        assert(Seq::new(nl as nat, |q: int| lane_placements(cv, lanes@, sl, i as int, lsv[q])).flatten() == slice_placements(
            cv,
            lanes@,
            sl,
            i as int,
        ));
        assert(Seq::new((i + 1) as nat, |q: int| slice_placements(cv, lanes@, sl, q)) =~= Seq::new(
            i as nat,
            |q: int| slice_placements(cv, lanes@, sl, q),
        ).push(slice_placements(cv, lanes@, sl, i as int)));
        proof {
            let prev = Seq::new(i as nat, |q: int| slice_placements(cv, lanes@, sl, q));
            prev.lemma_flatten_push(slice_placements(cv, lanes@, sl, i as int));
        }
        assert(ww.take(i + 1).drop_last() =~= ww.take(i as int));
        left = left + widths[i];
        i += 1;
    }
    out
}

} // verus!
