//! How much room the diagram's parts take: which entities each slice shows
//! in each swimlane, how wide each slice is and how tall each swimlane.

use super::catalog::{
    box_height, box_width, dims_for, entry_view, names_measurable, CatalogEntry, EntityKind, EntryView,
};
use crate::event_model::yaml_types::{EntityReference, Slice, Swimlane};
use crate::infrastructure::types::NonEmpty;
use crate::infrastructure::text::str_equal;
use crate::routing::event_model_router::{extract_entity_name, reference_name};
use vstd::prelude::*;

verus! {

broadcast use crate::infrastructure::types::lemma_non_empty_len;

/// Margin between entities.
pub const ENTITY_MARGIN: u32 = 20;

/// Minimum width per slice.
pub const MIN_SLICE_WIDTH: u32 = 300;

/// Minimum height of a swimlane.
pub const MIN_SWIMLANE_HEIGHT: u32 = 200;

/// The sum of `s`.
pub open spec fn sum(s: Seq<int>) -> int
    decreases s.len(),
{
    if s.len() == 0 {
        0
    } else {
        sum(s.drop_last()) + s.last()
    }
}

/// The largest of `init` and the elements of `s`.
pub open spec fn max_from(init: int, s: Seq<int>) -> int
    decreases s.len(),
{
    if s.len() == 0 {
        init
    } else {
        let m = max_from(init, s.drop_last());
        if s.last() > m {
            s.last()
        } else {
            m
        }
    }
}

/// A prefix of nonnegative numbers sums to no more than the whole, and
/// each element is no more than the sum.
pub proof fn lemma_sum_bounds(s: Seq<int>, k: int)
    requires
        0 <= k <= s.len(),
        forall|j: int| 0 <= j < s.len() ==> 0 <= #[trigger] s[j],
    ensures
        0 <= sum(s.take(k)) <= sum(s),
        k < s.len() ==> sum(s.take(k)) + s[k] <= sum(s),
    decreases s.len() - k,
{
    if k < s.len() {
        lemma_sum_bounds(s, k + 1);
        assert(s.take(k + 1).drop_last() =~= s.take(k));
    } else {
        assert(s.take(k) =~= s);
    }
    lemma_sum_nonneg(s.take(k));
}

/// Nonnegative numbers have a nonnegative sum.
pub proof fn lemma_sum_nonneg(s: Seq<int>)
    requires
        forall|j: int| 0 <= j < s.len() ==> 0 <= #[trigger] s[j],
    ensures
        0 <= sum(s),
    decreases s.len(),
{
    if s.len() > 0 {
        lemma_sum_nonneg(s.drop_last());
    }
}

/// The maximum is at least `init` and each element, and at most any bound
/// of them all.
pub proof fn lemma_max_from_bounds(init: int, s: Seq<int>)
    ensures
        init <= max_from(init, s),
        forall|j: int| 0 <= j < s.len() ==> #[trigger] s[j] <= max_from(init, s),
        max_from(init, s) == init || exists|j: int| 0 <= j < s.len() && max_from(init, s) == #[trigger] s[j],
    decreases s.len(),
{
    if s.len() > 0 {
        lemma_max_from_bounds(init, s.drop_last());
        let m = max_from(init, s.drop_last());
        assert forall|j: int| 0 <= j < s.len() implies #[trigger] s[j] <= max_from(init, s) by {
            if j < s.len() - 1 {
                assert(s[j] == s.drop_last()[j]);
            }
        }
        if m != init && s.last() <= m {
            let j = choose|j: int| 0 <= j < s.drop_last().len() && m == #[trigger] s.drop_last()[j];
            assert(s[j] == s.drop_last()[j]);
        }
    }
}

/// The kind of entity a reference designates.
pub open spec fn ref_kind(r: EntityReference) -> EntityKind {
    match r {
        EntityReference::View(_) => EntityKind::View,
        EntityReference::Command(_) => EntityKind::Command,
        EntityReference::Event(_) => EntityKind::Event,
        EntityReference::Projection(_) => EntityKind::Projection,
        EntityReference::Query(_) => EntityKind::Query,
        EntityReference::Automation(_) => EntityKind::Automation,
    }
}

/// The swimlane of the last entity of `kind` named `name` (a later entry
/// of the same kind and name replaces an earlier one).
pub open spec fn last_lane(cat: Seq<EntryView>, kind: EntityKind, name: Seq<char>) -> Option<Seq<char>>
    decreases cat.len(),
{
    if cat.len() == 0 {
        None
    } else if cat.last().0 == kind && cat.last().1 == name {
        Some(cat.last().2)
    } else {
        last_lane(cat.drop_last(), kind, name)
    }
}

/// The entity a reference designates, with its swimlane, when the diagram
/// has it.
pub open spec fn entity_info(cat: Seq<EntryView>, r: EntityReference) -> Option<(Seq<char>, Seq<char>)> {
    match last_lane(cat, ref_kind(r), reference_name(r)) {
        Some(lane) => Some((reference_name(r), lane)),
        None => None,
    }
}

/// End `k` of the slice's connections, taken in order, the source of each
/// before its target.
pub open spec fn endpoint(s: Slice, k: int) -> EntityReference {
    let c = s.connections@[k / 2];
    if k % 2 == 0 {
        c.from
    } else {
        c.to
    }
}

/// The number of connection ends of a slice.
pub open spec fn endpoint_count(s: Slice) -> int {
    2 * s.connections@.len() as int
}

/// The swimlanes the first `k` ends of the slice show entities in, in the
/// order they first appear.
pub open spec fn lanes_upto(cat: Seq<EntryView>, s: Slice, k: int) -> Seq<Seq<char>>
    decreases k,
{
    if k <= 0 {
        Seq::empty()
    } else {
        let prev = lanes_upto(cat, s, k - 1);
        match entity_info(cat, endpoint(s, k - 1)) {
            Some((_, lane)) => if prev.contains(lane) {
                prev
            } else {
                prev.push(lane)
            },
            None => prev,
        }
    }
}

/// The entities the first `k` ends of the slice show in swimlane `lane`,
/// each once, in the order they first appear.
pub open spec fn group_upto(cat: Seq<EntryView>, s: Slice, k: int, lane: Seq<char>) -> Seq<Seq<char>>
    decreases k,
{
    if k <= 0 {
        Seq::empty()
    } else {
        let prev = group_upto(cat, s, k - 1, lane);
        match entity_info(cat, endpoint(s, k - 1)) {
            Some((name, l)) => if l == lane && !prev.contains(name) {
                prev.push(name)
            } else {
                prev
            },
            None => prev,
        }
    }
}

/// The swimlanes a slice shows entities in.
pub open spec fn slice_lanes(cat: Seq<EntryView>, s: Slice) -> Seq<Seq<char>> {
    lanes_upto(cat, s, endpoint_count(s))
}

/// The entities a slice shows in swimlane `lane`.
pub open spec fn slice_group(cat: Seq<EntryView>, s: Slice, lane: Seq<char>) -> Seq<Seq<char>> {
    group_upto(cat, s, endpoint_count(s), lane)
}

/// The width entities need side by side: their widths with a margin
/// before, between and after them.
pub open spec fn required_width(cat: Seq<EntryView>, names: Seq<Seq<char>>) -> int {
    sum(names.map_values(|n: Seq<char>| box_width(cat, n))) + (names.len() + 1) * ENTITY_MARGIN
}

/// The width each swimlane needs in a slice.
pub open spec fn slice_requirements(cat: Seq<EntryView>, s: Slice) -> Seq<int> {
    slice_lanes(cat, s).map_values(|lane: Seq<char>| required_width(cat, slice_group(cat, s, lane)))
}

/// The width of a slice: what its widest swimlane needs, and at least
/// the minimum slice width.
pub open spec fn slice_width(cat: Seq<EntryView>, s: Slice) -> int {
    max_from(MIN_SLICE_WIDTH as int, slice_requirements(cat, s))
}

/// The widths of the slices, in order.
pub open spec fn slice_widths(cat: Seq<EntryView>, slices: Seq<Slice>) -> Seq<int> {
    slices.map_values(|s: Slice| slice_width(cat, s))
}

/// The index of the first swimlane from `j` on with id `id`.
pub open spec fn first_lane_from(lanes: Seq<Swimlane>, id: Seq<char>, j: int) -> Option<int>
    decreases lanes.len() - j,
{
    if j < 0 || j >= lanes.len() {
        None
    } else if lanes[j].id@ == id {
        Some(j)
    } else {
        first_lane_from(lanes, id, j + 1)
    }
}

/// The index of the first swimlane with id `id`.
pub open spec fn first_lane(lanes: Seq<Swimlane>, id: Seq<char>) -> Option<int> {
    first_lane_from(lanes, id, 0)
}

/// The index of the last swimlane with id `id`.
pub open spec fn last_lane_index(lanes: Seq<Swimlane>, id: Seq<char>) -> Option<int>
    decreases lanes.len(),
{
    if lanes.len() == 0 {
        None
    } else if lanes.last().id@ == id {
        Some(lanes.len() - 1)
    } else {
        last_lane_index(lanes.drop_last(), id)
    }
}

/// What an entity asks of swimlane `i`: its box height with a margin
/// above and below when `i` is the first swimlane with its swimlane id,
/// else nothing.
pub open spec fn lane_demands(cat: Seq<EntryView>, lanes: Seq<Swimlane>, i: int) -> Seq<int> {
    cat.map_values(
        |e: EntryView|
            if first_lane(lanes, e.2) == Some(i) {
                box_height(cat, e.1) + 2 * ENTITY_MARGIN
            } else {
                0
            },
    )
}

/// The height of swimlane `i`: what its tallest entity needs, at least
/// the minimum swimlane height.
pub open spec fn lane_height(cat: Seq<EntryView>, lanes: Seq<Swimlane>, i: int) -> int {
    let content = max_from(0, lane_demands(cat, lanes, i));
    if content > MIN_SWIMLANE_HEIGHT {
        content
    } else {
        MIN_SWIMLANE_HEIGHT as int
    }
}

/// The heights of the swimlanes, in order.
pub open spec fn lane_heights(cat: Seq<EntryView>, lanes: Seq<Swimlane>) -> Seq<int> {
    Seq::new(lanes.len(), |i: int| lane_height(cat, lanes, i))
}

/// The view of a catalog.
pub open spec fn cat_view(cat: Vec<CatalogEntry>) -> Seq<EntryView> {
    cat@.map_values(|e: CatalogEntry| entry_view(e))
}

/// The entity `r` designates, with its swimlane's id.
pub fn find_entity_info(cat: &Vec<CatalogEntry>, r: &EntityReference) -> (res: Option<(String, String)>)
    ensures
        match res {
            Some((n, l)) => entity_info(cat_view(*cat), *r) == Some((n@, l@)),
            None => entity_info(cat_view(*cat), *r) is None,
        },
{
    let ghost cv = cat_view(*cat);
    let name = extract_entity_name(r);
    let kind = match r {
        EntityReference::View(_) => EntityKind::View,
        EntityReference::Command(_) => EntityKind::Command,
        EntityReference::Event(_) => EntityKind::Event,
        EntityReference::Projection(_) => EntityKind::Projection,
        EntityReference::Query(_) => EntityKind::Query,
        EntityReference::Automation(_) => EntityKind::Automation,
    };
    let mut i = cat.len();
    assert(cv.take(i as int) =~= cv);
    while i > 0
        invariant
            i <= cat@.len(),
            cv == cat_view(*cat),
            kind == ref_kind(*r),
            name@ == reference_name(*r),
            last_lane(cv, kind, name@) == last_lane(cv.take(i as int), kind, name@),
        decreases i,
    {
        assert(cv.take(i as int).drop_last() =~= cv.take(i - 1));
        let e = &cat[i - 1];
        if e.kind == kind && str_equal(e.name.as_str(), name.as_str()) {
            let lane = e.lane.clone();
            return Some((name, lane));
        }
        i -= 1;
    }
    None
}

/// The views of strings.
pub open spec fn str_views(v: Seq<String>) -> Seq<Seq<char>> {
    v.map_values(|x: String| x@)
}

/// The position of `x` in `v`, if it is there.
fn position_of(v: &Vec<String>, x: &str) -> (r: Option<usize>)
    ensures
        match r {
            Some(j) => j < v@.len() && v@[j as int]@ == x@ && forall|i: int| 0 <= i < j ==> v@[i]@ != x@,
            None => !str_views(v@).contains(x@),
        },
{
    let n = v.len();
    for i in 0..n
        invariant
            n == v@.len(),
            forall|k: int| 0 <= k < i ==> v@[k]@ != x@,
    {
        if str_equal(v[i].as_str(), x) {
            return Some(i);
        }
    }
    assert(!str_views(v@).contains(x@)) by {
        if str_views(v@).contains(x@) {
            let k = choose|k: int| 0 <= k < str_views(v@).len() && str_views(v@)[k] == x@;
            assert(v@[k]@ == x@);
        }
    }
    None
}

/// The reference at end `k` of the slice's connections.
fn endpoint_at(s: &Slice, k: usize) -> (r: &EntityReference)
    requires
        k < endpoint_count(*s),
    ensures
        *r == endpoint(*s, k as int),
{
    let c = s.connections.get(k / 2);
    if k % 2 == 0 {
        &c.from
    } else {
        &c.to
    }
}

/// A swimlane no end has shown an entity in has no entities.
proof fn lemma_unseen_lane_empty(cat: Seq<EntryView>, s: Slice, k: int)
    requires
        0 <= k,
        forall|lane: Seq<char>| !lanes_upto(cat, s, k).contains(lane) ==> #[trigger] group_upto(cat, s, k, lane) == Seq::<Seq<char>>::empty(),
    ensures
        forall|lane: Seq<char>| !lanes_upto(cat, s, k + 1).contains(lane) ==> #[trigger] group_upto(cat, s, k + 1, lane) == Seq::<Seq<char>>::empty(),
{
    assert forall|lane: Seq<char>| !lanes_upto(cat, s, k + 1).contains(lane) implies #[trigger] group_upto(cat, s, k + 1, lane) == Seq::<Seq<char>>::empty() by {
        let prev = lanes_upto(cat, s, k);
        match entity_info(cat, endpoint(s, k)) {
            Some((n, l)) => {
                if prev.contains(l) {
                    let j = choose|j: int| 0 <= j < prev.len() && prev[j] == l;
                    assert(lanes_upto(cat, s, k + 1)[j] == l);
                } else {
                    assert(lanes_upto(cat, s, k + 1)[prev.len() as int] == l);
                }
                if prev.contains(lane) {
                    let j = choose|j: int| 0 <= j < prev.len() && prev[j] == lane;
                    assert(lanes_upto(cat, s, k + 1)[j] == lane);
                }
                assert(lane != l);
                assert(group_upto(cat, s, k + 1, lane) == group_upto(cat, s, k, lane));
            },
            None => {
                assert(group_upto(cat, s, k + 1, lane) == group_upto(cat, s, k, lane));
            },
        }
        assert(!prev.contains(lane));
    }
}

/// The swimlanes a slice shows entities in, in order of first appearance,
/// and for each the entities it shows there.
pub fn group_slice(cat: &Vec<CatalogEntry>, s: &Slice) -> (r: (Vec<String>, Vec<Vec<String>>))
    requires
        endpoint_count(*s) <= usize::MAX,
    ensures
        str_views(r.0@) == slice_lanes(cat_view(*cat), *s),
        r.1@.len() == r.0@.len(),
        forall|j: int| 0 <= j < r.0@.len() ==> str_views(#[trigger] r.1@[j]@) == slice_group(cat_view(*cat), *s, r.0@[j]@),
{
    let ghost cv = cat_view(*cat);
    let m = s.connections.len() * 2;
    let mut lanes: Vec<String> = Vec::new();
    let mut groups: Vec<Vec<String>> = Vec::new();
    let mut k: usize = 0;
    while k < m
        invariant
            m == endpoint_count(*s),
            cv == cat_view(*cat),
            k <= m,
            str_views(lanes@) == lanes_upto(cv, *s, k as int),
            groups@.len() == lanes@.len(),
            forall|a: int, b: int| 0 <= a < b < lanes@.len() ==> lanes@[a]@ != lanes@[b]@,
            forall|j: int| 0 <= j < lanes@.len() ==> str_views(#[trigger] groups@[j]@) == group_upto(cv, *s, k as int, lanes@[j]@),
            forall|lane: Seq<char>| !lanes_upto(cv, *s, k as int).contains(lane) ==> #[trigger] group_upto(cv, *s, k as int, lane) == Seq::<Seq<char>>::empty(),
        decreases m - k,
    {
        let r = endpoint_at(s, k);
        let info = find_entity_info(cat, r);
        let ghost old_lanes = str_views(lanes@);
        let ghost e = endpoint(*s, k as int);
        match info {
            Some((name, lane)) => {
                assert(entity_info(cv, e) == Some((name@, lane@)));
                assert(lanes_upto(cv, *s, k + 1) == (if old_lanes.contains(lane@) {
                    old_lanes
                } else {
                    old_lanes.push(lane@)
                }));
                assert(forall|l: Seq<char>| #[trigger] group_upto(cv, *s, k + 1, l) == (if l == lane@ && !group_upto(cv, *s, k as int, l).contains(name@) {
                    group_upto(cv, *s, k as int, l).push(name@)
                } else {
                    group_upto(cv, *s, k as int, l)
                }));
                match position_of(&lanes, lane.as_str()) {
                    Some(j) => {
                        assert(old_lanes[j as int] == lane@);
                        let ghost old_groups = groups@;
                        assert(str_views(old_groups[j as int]@) == group_upto(cv, *s, k as int, lane@));
                        let mut names = groups.remove(j);
                        let ghost old_names = str_views(names@);
                        match position_of(&names, name.as_str()) {
                            Some(q) => {
                                assert(old_names[q as int] == name@);
                            },
                            None => {
                                names.push(name);
                                assert(str_views(names@) =~= old_names.push(name@));
                            },
                        }
                        let ghost new_names = str_views(names@);
                        assert(new_names == group_upto(cv, *s, k + 1, lane@));
                        groups.insert(j, names);
                        assert forall|i: int| 0 <= i < lanes@.len() implies str_views(#[trigger] groups@[i]@) == group_upto(cv, *s, k + 1, lanes@[i]@) by {
                            if i != j {
                                assert(lanes@[i]@ != lane@);
                                assert(groups@[i] == old_groups[i]);
                            } else {
                                assert(str_views(groups@[i]@) == new_names);
                            }
                        }
                        assert(old_lanes.contains(lane@));
                    },
                    None => {
                        let mut names: Vec<String> = Vec::new();
                        let ghost lane_view = lane@;
                        names.push(name);
                        lanes.push(lane);
                        groups.push(names);
                        assert(str_views(lanes@) =~= old_lanes.push(lane_view));
                        assert forall|a: int, b: int| 0 <= a < b < lanes@.len() implies lanes@[a]@ != lanes@[b]@ by {
                            if b == lanes@.len() - 1 {
                                if lanes@[a]@ == lane_view {
                                    assert(old_lanes[a] == lane_view);
                                }
                            }
                        }
                        assert(group_upto(cv, *s, k as int, lane_view) == Seq::<Seq<char>>::empty());
                        assert forall|i: int| 0 <= i < lanes@.len() implies str_views(#[trigger] groups@[i]@) == group_upto(cv, *s, k + 1, lanes@[i]@) by {
                            if i < lanes@.len() - 1 {
                                assert(lanes@[i]@ == old_lanes[i]);
                                assert(old_lanes[i] != lane_view);
                            } else {
                                assert(str_views(groups@[i]@) =~= seq![name@]);
                                assert(Seq::<Seq<char>>::empty().push(name@) =~= seq![name@]);
                            }
                        }
                    },
                }
            },
            None => {
                assert(entity_info(cv, e) is None);
                assert(lanes_upto(cv, *s, k + 1) == old_lanes);
                assert(forall|l: Seq<char>| #[trigger] group_upto(cv, *s, k + 1, l) == group_upto(cv, *s, k as int, l));
            },
        }
        proof {
            lemma_unseen_lane_empty(cv, *s, k as int);
        }
        k += 1;
    }
    (lanes, groups)
}

/// Whether some entity of the catalog is named `n`.
pub open spec fn name_known(cat: Seq<EntryView>, n: Seq<char>) -> bool {
    exists|k: int| 0 <= k < cat.len() && (#[trigger] cat[k]).1 == n
}

/// The swimlane found for a kind and name belongs to an entity of that
/// kind and name.
proof fn lemma_last_lane_known(cat: Seq<EntryView>, kind: EntityKind, name: Seq<char>)
    ensures
        last_lane(cat, kind, name) is Some ==> name_known(cat, name),
    decreases cat.len(),
{
    if cat.len() > 0 {
        if cat.last().0 == kind && cat.last().1 == name {
            assert(cat[cat.len() - 1].1 == name);
        } else {
            lemma_last_lane_known(cat.drop_last(), kind, name);
            if last_lane(cat, kind, name) is Some {
                let k = choose|k: int| 0 <= k < cat.drop_last().len() && (#[trigger] cat.drop_last()[k]).1 == name;
                assert(cat[k] == cat.drop_last()[k]);
            }
        }
    }
}

/// The entities a slice shows are entities of the catalog.
proof fn lemma_group_known(cat: Seq<EntryView>, s: Slice, k: int, lane: Seq<char>)
    ensures
        forall|j: int| 0 <= j < group_upto(cat, s, k, lane).len() ==> name_known(cat, #[trigger] group_upto(cat, s, k, lane)[j]),
    decreases k,
{
    if k > 0 {
        lemma_group_known(cat, s, k - 1, lane);
        let r = endpoint(s, k - 1);
        lemma_last_lane_known(cat, ref_kind(r), reference_name(r));
        let prev = group_upto(cat, s, k - 1, lane);
        assert forall|j: int| 0 <= j < group_upto(cat, s, k, lane).len() implies name_known(cat, #[trigger] group_upto(cat, s, k, lane)[j]) by {
            if j < prev.len() {
                assert(group_upto(cat, s, k, lane)[j] == prev[j]);
            }
        }
    }
}

/// One more element in a maximum.
proof fn lemma_max_from_take(init: int, s: Seq<int>, t: int)
    requires
        0 <= t < s.len(),
    ensures
        max_from(init, s.take(t + 1)) == (if s[t] > max_from(init, s.take(t)) { s[t] } else { max_from(init, s.take(t)) }),
{
    assert(s.take(t + 1).drop_last() =~= s.take(t));
}

/// One more element in a sum.
pub proof fn lemma_sum_take(s: Seq<int>, t: int)
    requires
        0 <= t < s.len(),
    ensures
        sum(s.take(t + 1)) == sum(s.take(t)) + s[t],
{
    assert(s.take(t + 1).drop_last() =~= s.take(t));
}

/// The width entities need side by side.
fn required_width_of(cat: &Vec<CatalogEntry>, names: &Vec<String>, Ghost(limit): Ghost<int>) -> (r: u32)
    requires
        names_measurable(cat_view(*cat)),
        forall|j: int| 0 <= j < names@.len() ==> name_known(cat_view(*cat), #[trigger] names@[j]@),
        required_width(cat_view(*cat), str_views(names@)) <= limit <= 0x1000_0000,
    ensures
        r == required_width(cat_view(*cat), str_views(names@)),
{
    let ghost cv = cat_view(*cat);
    let ghost widths = str_views(names@).map_values(|n: Seq<char>| box_width(cv, n));
    proof {
        assert forall|j: int| 0 <= j < widths.len() implies 0 <= #[trigger] widths[j] by {}
        lemma_sum_bounds(widths, widths.len() as int);
        assert(widths.take(widths.len() as int) =~= widths);
    }
    let mut total: u32 = 0;
    let n = names.len();
    for i in 0..n
        invariant
            n == names@.len(),
            cv == cat_view(*cat),
            names_measurable(cv),
            forall|j: int| 0 <= j < names@.len() ==> name_known(cv, #[trigger] names@[j]@),
            widths == str_views(names@).map_values(|n: Seq<char>| box_width(cv, n)),
            forall|j: int| 0 <= j < widths.len() ==> 0 <= #[trigger] widths[j],
            sum(widths) + (n + 1) * ENTITY_MARGIN <= 0x1000_0000,
            total == sum(widths.take(i as int)),
    {
        proof {
            let k = choose|k: int| 0 <= k < cv.len() && (#[trigger] cv[k]).1 == names@[i as int]@;
            lemma_sum_bounds(widths, i + 1);
            lemma_sum_take(widths, i as int);
        }
        let d = dims_for(cat, names[i].as_str());
        total = total + d.width;
    }
    assert(widths.take(n as int) =~= widths);
    total + (n as u32 + 1) * ENTITY_MARGIN
}

/// The width entities need side by side, when it is at most `2^28`.
fn required_width_within(cat: &Vec<CatalogEntry>, names: &Vec<String>) -> (r: Option<u32>)
    requires
        names_measurable(cat_view(*cat)),
        forall|j: int| 0 <= j < names@.len() ==> name_known(cat_view(*cat), #[trigger] names@[j]@),
    ensures
        match r {
            Some(w) => w == required_width(cat_view(*cat), str_views(names@)) && w <= 0x1000_0000,
            None => required_width(cat_view(*cat), str_views(names@)) > 0x1000_0000,
        },
{
    let ghost cv = cat_view(*cat);
    let ghost widths = str_views(names@).map_values(|n: Seq<char>| box_width(cv, n));
    assert forall|j: int| 0 <= j < widths.len() implies 0 <= #[trigger] widths[j] by {}
    let mut total: u64 = 0;
    let n = names.len();
    assert(widths.take(0) =~= Seq::<int>::empty());
    for i in 0..n
        invariant
            n == names@.len(),
            cv == cat_view(*cat),
            names_measurable(cv),
            forall|j: int| 0 <= j < names@.len() ==> name_known(cv, #[trigger] names@[j]@),
            widths == str_views(names@).map_values(|n: Seq<char>| box_width(cv, n)),
            forall|j: int| 0 <= j < widths.len() ==> 0 <= #[trigger] widths[j],
            total == sum(widths.take(i as int)),
            total <= 0x1000_0000,
    {
        proof {
            let k = choose|k: int| 0 <= k < cv.len() && (#[trigger] cv[k]).1 == names@[i as int]@;
            lemma_sum_take(widths, i as int);
        }
        let d = dims_for(cat, names[i].as_str());
        total = total + d.width as u64;
        if total > 0x1000_0000 {
            proof {
                lemma_sum_bounds(widths, i + 1);
            }
            return None;
        }
    }
    assert(widths.take(n as int) =~= widths);
    if n > 0x1000_0000 {
        return None;
    }
    let w = total + (n as u64 + 1) * ENTITY_MARGIN as u64;
    if w > 0x1000_0000 {
        None
    } else {
        Some(w as u32)
    }
}

/// The width of a slice, when it is at most `2^28`.
pub fn slice_width_within(cat: &Vec<CatalogEntry>, s: &Slice) -> (r: Option<u32>)
    requires
        names_measurable(cat_view(*cat)),
        endpoint_count(*s) <= usize::MAX,
    ensures
        match r {
            Some(w) => w == slice_width(cat_view(*cat), *s),
            None => slice_width(cat_view(*cat), *s) > 0x1000_0000,
        },
{
    let ghost cv = cat_view(*cat);
    let (lanes, groups) = group_slice(cat, s);
    let ghost reqs = slice_requirements(cv, *s);
    proof {
        lemma_max_from_bounds(MIN_SLICE_WIDTH as int, reqs);
    }
    let mut widest: u32 = MIN_SLICE_WIDTH;
    let n = lanes.len();
    assert(reqs.take(0) =~= Seq::<int>::empty());
    for j in 0..n
        invariant
            n == lanes@.len(),
            cv == cat_view(*cat),
            names_measurable(cv),
            reqs == slice_requirements(cv, *s),
            str_views(lanes@) == slice_lanes(cv, *s),
            groups@.len() == lanes@.len(),
            forall|j: int| 0 <= j < lanes@.len() ==> str_views(#[trigger] groups@[j]@) == slice_group(cv, *s, lanes@[j]@),
            forall|j: int| 0 <= j < reqs.len() ==> #[trigger] reqs[j] <= max_from(MIN_SLICE_WIDTH as int, reqs),
            widest == max_from(MIN_SLICE_WIDTH as int, reqs.take(j as int)),
            widest <= 0x1000_0000,
    {
        proof {
            assert(reqs[j as int] == required_width(cv, str_views(groups@[j as int]@)));
            lemma_group_known(cv, *s, endpoint_count(*s), lanes@[j as int]@);
            assert forall|q: int| 0 <= q < groups@[j as int]@.len() implies name_known(cv, #[trigger] groups@[j as int]@[q]@) by {
                assert(str_views(groups@[j as int]@)[q] == slice_group(cv, *s, lanes@[j as int]@)[q]);
            }
            lemma_max_from_take(MIN_SLICE_WIDTH as int, reqs, j as int);
        }
        match required_width_within(cat, &groups[j]) {
            None => {
                return None;
            },
            Some(req) => {
                if req > widest {
                    widest = req;
                }
            },
        }
    }
    assert(reqs.take(n as int) =~= reqs);
    Some(widest)
}

/// The width of a slice.
pub fn slice_width_of(cat: &Vec<CatalogEntry>, s: &Slice) -> (r: u32)
    requires
        names_measurable(cat_view(*cat)),
        endpoint_count(*s) <= usize::MAX,
        slice_width(cat_view(*cat), *s) <= 0x1000_0000,
    ensures
        r == slice_width(cat_view(*cat), *s),
{
    let ghost cv = cat_view(*cat);
    let (lanes, groups) = group_slice(cat, s);
    let ghost reqs = slice_requirements(cv, *s);
    proof {
        lemma_max_from_bounds(MIN_SLICE_WIDTH as int, reqs);
    }
    let mut widest: u32 = MIN_SLICE_WIDTH;
    let n = lanes.len();
    assert(reqs.take(0) =~= Seq::<int>::empty());
    for j in 0..n
        invariant
            n == lanes@.len(),
            cv == cat_view(*cat),
            names_measurable(cv),
            reqs == slice_requirements(cv, *s),
            str_views(lanes@) == slice_lanes(cv, *s),
            groups@.len() == lanes@.len(),
            forall|j: int| 0 <= j < lanes@.len() ==> str_views(#[trigger] groups@[j]@) == slice_group(cv, *s, lanes@[j]@),
            forall|j: int| 0 <= j < reqs.len() ==> #[trigger] reqs[j] <= max_from(MIN_SLICE_WIDTH as int, reqs),
            max_from(MIN_SLICE_WIDTH as int, reqs) <= 0x1000_0000,
            widest == max_from(MIN_SLICE_WIDTH as int, reqs.take(j as int)),
    {
        proof {
            assert(reqs[j as int] == required_width(cv, str_views(groups@[j as int]@)));
            lemma_group_known(cv, *s, endpoint_count(*s), lanes@[j as int]@);
            assert forall|q: int| 0 <= q < groups@[j as int]@.len() implies name_known(cv, #[trigger] groups@[j as int]@[q]@) by {
                assert(str_views(groups@[j as int]@)[q] == slice_group(cv, *s, lanes@[j as int]@)[q]);
            }
            lemma_max_from_take(MIN_SLICE_WIDTH as int, reqs, j as int);
        }
        let req = required_width_of(cat, &groups[j], Ghost(reqs[j as int]));
        if req > widest {
            widest = req;
        }
    }
    assert(reqs.take(n as int) =~= reqs);
    widest
}

/// The index of the first swimlane with id `id`.
pub fn first_lane_index(lanes: &NonEmpty<Swimlane>, id: &str) -> (r: Option<usize>)
    requires
        lanes@.len() <= usize::MAX,
    ensures
        match r {
            Some(i) => first_lane(lanes@, id@) == Some(i as int),
            None => first_lane(lanes@, id@) is None,
        },
{
    let n = lanes.len();
    let mut i: usize = 0;
    while i < n
        invariant
            n == lanes@.len(),
            i <= n,
            first_lane(lanes@, id@) == first_lane_from(lanes@, id@, i as int),
        decreases n - i,
    {
        if str_equal(lanes.get(i).id.clone().into_inner().as_str(), id) {
            return Some(i);
        }
        i += 1;
    }
    None
}

/// A swimlane found from `j` on is at or after `j` and exists.
pub proof fn lemma_first_lane_range(lanes: Seq<Swimlane>, id: Seq<char>, j: int)
    ensures
        first_lane_from(lanes, id, j) matches Some(x) ==> j <= x < lanes.len() && lanes[x].id@ == id,
    decreases lanes.len() - j,
{
    if 0 <= j < lanes.len() && lanes[j].id@ != id {
        lemma_first_lane_range(lanes, id, j + 1);
    }
}

/// The heights of the swimlanes.
pub fn lane_heights_of(cat: &Vec<CatalogEntry>, lanes: &NonEmpty<Swimlane>) -> (r: Vec<u32>)
    requires
        names_measurable(cat_view(*cat)),
        lanes@.len() <= usize::MAX,
    ensures
        r@.len() == lanes@.len(),
        forall|i: int| 0 <= i < lanes@.len() ==> r@[i] == #[trigger] lane_height(cat_view(*cat), lanes@, i),
{
    let ghost cv = cat_view(*cat);
    let n = lanes.len();
    let mut content: Vec<u32> = Vec::new();
    for i in 0..n
        invariant
            n == lanes@.len(),
            content@.len() == i,
            forall|q: int| 0 <= q < i ==> content@[q] == 0,
    {
        content.push(0);
    }
    let m = cat.len();
    assert forall|i: int| 0 <= i < n implies content@[i] == #[trigger] max_from(0, lane_demands(cv, lanes@, i).take(0)) by {
        assert(lane_demands(cv, lanes@, i).take(0) =~= Seq::<int>::empty());
    }
    let mut t: usize = 0;
    while t < m
        invariant
            t <= m,
            n == lanes@.len(),
            m == cv.len(),
            cv == cat_view(*cat),
            names_measurable(cv),
            content@.len() == n,
            forall|i: int| 0 <= i < n ==> content@[i] == #[trigger] max_from(0, lane_demands(cv, lanes@, i).take(t as int)),
        decreases m - t,
    {
        let e = &cat[t];
        let ghost ev = cv[t as int];
        assert(ev == entry_view(cat@[t as int]));
        let ghost before = content@;
        match first_lane_index(lanes, e.lane.as_str()) {
            Some(i) => {
                proof {
                    lemma_first_lane_range(lanes@, ev.2, 0);
                    lemma_max_from_bounds(0, lane_demands(cv, lanes@, i as int));
                    assert(lane_demands(cv, lanes@, i as int)[t as int] == box_height(cv, ev.1) + 2 * ENTITY_MARGIN);
                }
                let d = dims_for(cat, e.name.as_str());
                let demand = d.height + 2 * ENTITY_MARGIN;
                assert(demand == lane_demands(cv, lanes@, i as int)[t as int]);
                assert(before[i as int] == max_from(0, lane_demands(cv, lanes@, i as int).take(t as int)));
                if demand > content[i] {
                    content.set(i, demand);
                }
                proof {
                    assert forall|q: int| 0 <= q < n implies content@[q] == #[trigger] max_from(0, lane_demands(cv, lanes@, q).take(t + 1)) by {
                        lemma_max_from_take(0, lane_demands(cv, lanes@, q), t as int);
                        lemma_max_from_bounds(0, lane_demands(cv, lanes@, q).take(t as int));
                        if q != i {
                            assert(lane_demands(cv, lanes@, q)[t as int] == 0);
                            assert(content@[q] == before[q]);
                        }
                    }
                }
            },
            None => {
                proof {
                    assert forall|q: int| 0 <= q < n implies content@[q] == #[trigger] max_from(0, lane_demands(cv, lanes@, q).take(t + 1)) by {
                        lemma_max_from_take(0, lane_demands(cv, lanes@, q), t as int);
                        lemma_max_from_bounds(0, lane_demands(cv, lanes@, q).take(t as int));
                        assert(lane_demands(cv, lanes@, q)[t as int] == 0);
                    }
                }
            },
        }
        t += 1;
    }
    let mut heights: Vec<u32> = Vec::new();
    for i in 0..n
        invariant
            n == lanes@.len(),
            m == cv.len(),
            cv == cat_view(*cat),
            content@.len() == n,
            heights@.len() == i,
            forall|q: int| 0 <= q < n ==> content@[q] == #[trigger] max_from(0, lane_demands(cv, lanes@, q).take(m as int)),
            forall|q: int| 0 <= q < i ==> heights@[q] == #[trigger] lane_height(cv, lanes@, q),
    {
        assert(lane_demands(cv, lanes@, i as int).take(m as int) =~= lane_demands(cv, lanes@, i as int));
        let c = content[i];
        heights.push(if c > MIN_SWIMLANE_HEIGHT { c } else { MIN_SWIMLANE_HEIGHT });
    }
    heights
}

} // verus!
