//! SVG rendering for event model diagrams: the diagram is measured, its
//! entities placed slice by slice and swimlane by swimlane, and the whole
//! drawn as one SVG document.
pub mod arrows;
pub mod boxes;
pub mod catalog;
pub mod curves;
pub mod frame;
pub mod measure;
pub mod placement;
pub mod text_wrap;

use self::arrows::{connections_svg, positions_of, record_positions, render_connections};
use self::boxes::{boxes_svg, render_boxes};
use self::catalog::{build_catalog, catalog, names_measurable, CatalogEntry};
use self::frame::{header_svg, lanes_svg, lemma_lane_labels, lemma_slice_header_labels, lemma_occurs_in_concat, num, occurs_at, render_header, render_slice_headers, render_swimlanes, slice_headers_svg, PADDING};
use self::measure::{
    cat_view, endpoint_count, lane_heights, lane_heights_of, lemma_max_from_bounds, lemma_sum_bounds, slice_requirements,
    slice_width, slice_width_of, slice_width_within, slice_widths, sum, lemma_sum_take, MIN_SLICE_WIDTH,
};
use self::placement::{lane_top, place_entities, slice_left, placements, prefix_sum, u32_ints, SWIMLANES_START_Y, SWIMLANE_LABEL_WIDTH};
use super::builder::EventModelDiagram;
use super::DiagramError;
use crate::event_model::yaml_types::{Slice, Swimlane};
use crate::infrastructure::text::append_str;
use crate::infrastructure::types::NonEmpty;
use vstd::prelude::*;

verus! {

broadcast use crate::infrastructure::types::lemma_non_empty_len;

/// Width of the drawing when it has no slices.
pub const MIN_WIDTH: u32 = 1200;

/// The width of the drawing: the label column and the slices, or the
/// minimum width when there are no slices.
pub open spec fn total_width(d: EventModelDiagram) -> int {
    if d.slice_seq().len() > 0 {
        SWIMLANE_LABEL_WIDTH + sum(slice_widths(catalog(d), d.slice_seq()))
    } else {
        MIN_WIDTH as int
    }
}

/// The height of the drawing: the title and slice headers, the swimlanes
/// and the padding below.
pub open spec fn total_height(d: EventModelDiagram) -> int {
    SWIMLANES_START_Y + sum(lane_heights(catalog(d), d.lanes())) + PADDING
}

/// Whether the diagram can be drawn: every entity name has at most 2^19
/// characters, the drawing measures less than 2^28 in each direction, and
/// the number of connection ends of each slice is a machine number.
pub open spec fn svg_fits(d: EventModelDiagram) -> bool {
    &&& names_measurable(catalog(d))
    &&& d.lanes().len() <= usize::MAX
    &&& forall|i: int| 0 <= i < d.slice_seq().len() ==> endpoint_count(#[trigger] d.slice_seq()[i]) <= usize::MAX
    &&& SWIMLANE_LABEL_WIDTH + sum(slice_widths(catalog(d), d.slice_seq())) <= 0x1000_0000
    &&& SWIMLANES_START_Y + sum(lane_heights(catalog(d), d.lanes())) <= 0x1000_0000
}

/// The SVG document of a diagram: the header with the title, the slice
/// headers (when there are slices), the swimlanes, the entity boxes and
/// the connection arrows.
pub open spec fn svg_document(d: EventModelDiagram) -> Seq<char> {
    let cat = catalog(d);
    let lanes = d.lanes();
    let slices = d.slice_seq();
    let w = total_width(d);
    let h = total_height(d);
    let placed = placements(cat, lanes, slices);
    header_svg(w, h, d.title_text()) + (if slices.len() > 0 {
        slice_headers_svg(slices, slice_widths(cat, slices), w, h)
    } else {
        Seq::empty()
    }) + lanes_svg(lanes, lane_heights(cat, lanes), w) + boxes_svg(placed) + connections_svg(
        positions_of(placed),
        slices,
    ) + "</svg>"@
}

/// In the drawing of a diagram every swimlane carries its own name: for
/// each lane `i` the document holds the upright label of lane `i`, centred
/// on the lane's height, whose text is that lane's name. The result is
/// where the label starts.
pub proof fn lemma_document_lane_labels(d: EventModelDiagram, i: int) -> (k: int)
    requires
        0 <= i < d.lanes().len(),
    ensures
        ({
            let heights = lane_heights(catalog(d), d.lanes());
            let y = SWIMLANES_START_Y + sum(heights.take(i)) + heights[i] / 2;
            occurs_at(
                svg_document(d),
                "  <text x=\"40\" y=\""@ + num(y)
                    + "\" font-family=\"Arial, sans-serif\" font-size=\"10\" fill=\"#333333\" text-anchor=\"middle\" transform=\"rotate(-90 40 "@
                    + num(y) + ")\">\n    "@ + d.lanes()[i].name@ + "\n  </text>\n"@,
                k,
            )
        }),
{
    let cat = catalog(d);
    let lanes = d.lanes();
    let slices = d.slice_seq();
    let w = total_width(d);
    let h = total_height(d);
    let placed = placements(cat, lanes, slices);
    let heights = lane_heights(cat, lanes);
    let j = lemma_lane_labels(lanes, heights, w, i);
    let before = header_svg(w, h, d.title_text()) + (if slices.len() > 0 {
        slice_headers_svg(slices, slice_widths(cat, slices), w, h)
    } else {
        Seq::empty()
    });
    let after = boxes_svg(placed) + connections_svg(positions_of(placed), slices) + "</svg>"@;
    let y = lane_top(heights, i) + heights[i] / 2;
    let label = "  <text x=\"40\" y=\""@ + num(y)
        + "\" font-family=\"Arial, sans-serif\" font-size=\"10\" fill=\"#333333\" text-anchor=\"middle\" transform=\"rotate(-90 40 "@
        + num(y) + ")\">\n    "@ + lanes[i].name@ + "\n  </text>\n"@;
    lemma_occurs_in_concat(before, lanes_svg(lanes, heights, w), after, label, j);
    assert(svg_document(d) =~= before + lanes_svg(lanes, heights, w) + after);
    before.len() + j
}

/// The drawing of a diagram carries the workflow's title: after the
/// canvas background comes the title text at the top left, whose text is
/// the title. The result is where that part starts.
pub proof fn lemma_document_title(d: EventModelDiagram) -> (k: int)
    ensures
        occurs_at(
            svg_document(d),
            "\" fill=\"#f8f8f8\" stroke=\"none\"/>\n  \n  <!-- Workflow title -->\n  <text x=\"20\" y=\"35\" font-family=\"Arial, sans-serif\" font-size=\"12\" font-weight=\"normal\" fill=\"#333333\">\n    "@
                + d.title_text() + "\n  </text>\n"@,
            k,
        ),
{
    let w = total_width(d);
    let h = total_height(d);
    let text = "\" fill=\"#f8f8f8\" stroke=\"none\"/>\n  \n  <!-- Workflow title -->\n  <text x=\"20\" y=\"35\" font-family=\"Arial, sans-serif\" font-size=\"12\" font-weight=\"normal\" fill=\"#333333\">\n    "@
        + d.title_text() + "\n  </text>\n"@;
    let before = "<?xml version=\"1.0\" encoding=\"UTF-8\"?>\n<svg xmlns=\"http://www.w3.org/2000/svg\" viewBox=\"0 0 "@
        + num(w) + " "@ + num(h)
        + "\">\n  <!-- Arrow marker definition -->\n  <defs>\n    <marker id=\"arrowhead\" markerWidth=\"10\" markerHeight=\"7\" refX=\"9\" refY=\"3.5\" orient=\"auto\">\n      <polygon points=\"0 0, 10 3.5, 0 7\" fill=\"#333333\" />\n    </marker>\n  </defs>\n  \n  <!-- Canvas background -->\n  <rect x=\"0\" y=\"0\" width=\""@
        + num(w) + "\" height=\""@ + num(h);
    let doc = svg_document(d);
    let rest = doc.subrange((before.len() + text.len()) as int, doc.len() as int);
    assert(header_svg(w, h, d.title_text()) =~= before + text);
    assert(doc =~= before + text + rest);
    assert(text.subrange(0, text.len() as int) =~= text);
    lemma_occurs_in_concat(before, text, rest, text, 0);
    before.len() as int
}

/// In the drawing of a diagram with slices every slice header carries its
/// own slice's name, centred over the slice's column. The result is where
/// that header's text starts.
pub proof fn lemma_document_slice_labels(d: EventModelDiagram, i: int) -> (k: int)
    requires
        0 <= i < d.slice_seq().len(),
    ensures
        ({
            let widths = slice_widths(catalog(d), d.slice_seq());
            occurs_at(
                svg_document(d),
                "  <text x=\""@ + num(SWIMLANE_LABEL_WIDTH + sum(widths.take(i)) + widths[i] / 2)
                    + "\" y=\"68\" font-family=\"Arial, sans-serif\" font-size=\"11\" fill=\"#333333\" text-anchor=\"middle\">\n    "@
                    + d.slice_seq()[i].name@ + "\n  </text>\n"@,
                k,
            )
        }),
{
    let cat = catalog(d);
    let lanes = d.lanes();
    let slices = d.slice_seq();
    let w = total_width(d);
    let h = total_height(d);
    let placed = placements(cat, lanes, slices);
    let widths = slice_widths(cat, slices);
    let j = lemma_slice_header_labels(slices, widths, w, h, i);
    let label = "  <text x=\""@ + num(slice_left(widths, i) + widths[i] / 2)
        + "\" y=\"68\" font-family=\"Arial, sans-serif\" font-size=\"11\" fill=\"#333333\" text-anchor=\"middle\">\n    "@
        + slices[i].name@ + "\n  </text>\n"@;
    let before = header_svg(w, h, d.title_text());
    let after = lanes_svg(lanes, lane_heights(cat, lanes), w) + boxes_svg(placed) + connections_svg(
        positions_of(placed),
        slices,
    ) + "</svg>"@;
    lemma_occurs_in_concat(before, slice_headers_svg(slices, widths, w, h), after, label, j);
    assert(svg_document(d) =~= before + slice_headers_svg(slices, widths, w, h) + after);
    before.len() + j
}

/// Whether every name of the catalog is short enough to be measured.
fn names_fit(cat: &Vec<CatalogEntry>) -> (r: bool)
    ensures
        r == names_measurable(cat_view(*cat)),
{
    let ghost cv = cat_view(*cat);
    let m = cat.len();
    for k in 0..m
        invariant
            m == cat@.len(),
            cv == cat_view(*cat),
            forall|j: int| 0 <= j < k ==> (#[trigger] cv[j]).1.len() <= 0x8_0000,
    {
        assert(cv[k as int].1 == cat@[k as int].name@);
        if cat[k].name.as_str().unicode_len() > 0x8_0000 {
            return false;
        }
    }
    true
}

/// Whether the slices, side by side after the swimlane labels, are at most
/// `2^28` wide.
fn slices_fit(cat: &Vec<CatalogEntry>, slices: &[Slice]) -> (r: bool)
    requires
        names_measurable(cat_view(*cat)),
        forall|q: int| 0 <= q < slices@.len() ==> endpoint_count(#[trigger] slices@[q]) <= usize::MAX,
    ensures
        r == (SWIMLANE_LABEL_WIDTH + sum(slice_widths(cat_view(*cat), slices@)) <= 0x1000_0000),
{
    let ghost cv = cat_view(*cat);
    let ghost ww = slice_widths(cv, slices@);
    proof {
        assert forall|q: int| 0 <= q < ww.len() implies 0 <= #[trigger] ww[q] by {
            lemma_max_from_bounds(MIN_SLICE_WIDTH as int, slice_requirements(cv, slices@[q]));
        }
        assert(ww.take(0) =~= Seq::<int>::empty());
    }
    let ns = slices.len();
    let mut width: u64 = 0;
    for i in 0..ns
        invariant
            ns == slices@.len(),
            cv == cat_view(*cat),
            names_measurable(cv),
            forall|q: int| 0 <= q < ns ==> endpoint_count(#[trigger] slices@[q]) <= usize::MAX,
            ww == slice_widths(cv, slices@),
            forall|q: int| 0 <= q < ww.len() ==> 0 <= #[trigger] ww[q],
            width == sum(ww.take(i as int)),
            SWIMLANE_LABEL_WIDTH + width <= 0x1000_0000,
    {
        proof {
            lemma_sum_take(ww, i as int);
            lemma_sum_bounds(ww, i + 1);
        }
        match slice_width_within(cat, &slices[i]) {
            None => {
                return false;
            },
            Some(w) => {
                width = width + w as u64;
                if SWIMLANE_LABEL_WIDTH as u64 + width > 0x1000_0000 {
                    return false;
                }
            },
        }
    }
    assert(ww.take(ns as int) =~= ww);
    true
}

/// Whether the swimlanes, stacked below the slice headers, are at most
/// `2^28` high.
fn lanes_fit(cat: &Vec<CatalogEntry>, lanes: &NonEmpty<Swimlane>) -> (r: bool)
    requires
        names_measurable(cat_view(*cat)),
        lanes@.len() <= usize::MAX,
    ensures
        r == (SWIMLANES_START_Y + sum(lane_heights(cat_view(*cat), lanes@)) <= 0x1000_0000),
{
    let ghost cv = cat_view(*cat);
    let heights = lane_heights_of(cat, lanes);
    let ghost hh = lane_heights(cv, lanes@);
    assert(u32_ints(heights@) =~= hh);
    let nl = heights.len();
    let mut height: u64 = 0;
    proof {
        assert forall|q: int| 0 <= q < hh.len() implies 0 <= #[trigger] hh[q] by {}
        assert(hh.take(0) =~= Seq::<int>::empty());
    }
    for i in 0..nl
        invariant
            nl == heights@.len(),
            cv == cat_view(*cat),
            hh == lane_heights(cv, lanes@),
            u32_ints(heights@) == hh,
            forall|q: int| 0 <= q < hh.len() ==> 0 <= #[trigger] hh[q],
            height == sum(hh.take(i as int)),
            SWIMLANES_START_Y + height <= 0x1000_0000,
    {
        proof {
            lemma_sum_take(hh, i as int);
            lemma_sum_bounds(hh, i + 1);
            assert(hh[i as int] == heights@[i as int]);
        }
        height = height + heights[i] as u64;
        if SWIMLANES_START_Y as u64 + height > 0x1000_0000 {
            return false;
        }
    }
    assert(hh.take(nl as int) =~= hh);
    true
}

/// Whether the diagram can be drawn: exactly `svg_fits`.
pub fn svg_fits_check(diagram: &EventModelDiagram) -> (r: bool)
    ensures
        r == svg_fits(*diagram),
{
    let cat = build_catalog(diagram);
    assert(cat_view(cat) == catalog(*diagram));
    if !names_fit(&cat) {
        return false;
    }
    let lanes = diagram.swimlanes();
    assert(lanes@.len() >= 1);
    assert(lanes@.drop_first().len() == lanes@.len() - 1);
    if lanes.tail().len() == usize::MAX {
        return false;
    }
    let slices = diagram.slices();
    let ns = slices.len();
    for i in 0..ns
        invariant
            ns == slices@.len(),
            slices@ == diagram.slice_seq(),
            forall|q: int| 0 <= q < i ==> endpoint_count(#[trigger] slices@[q]) <= usize::MAX,
    {
        let c = &slices[i].connections;
        assert(c@.len() >= 1);
        assert(c@.drop_first().len() == c@.len() - 1);
        if c.tail().len() >= usize::MAX / 2 {
            return false;
        }
    }
    if !slices_fit(&cat, slices) {
        return false;
    }
    lanes_fit(&cat, lanes)
}

/// Renders an event model diagram to SVG format; rendering does not fail.
pub fn render_to_svg(diagram: &EventModelDiagram) -> (r: Result<String, DiagramError>)
    requires
        svg_fits(*diagram),
    ensures
        r matches Ok(s) && s@ == svg_document(*diagram),
{
    let cat = build_catalog(diagram);
    let ghost cv = cat_view(cat);
    assert(cv == catalog(*diagram));
    let lanes = diagram.swimlanes();
    let slices = diagram.slices();
    let ghost ww = slice_widths(cv, slices@);
    let ghost hh = lane_heights(cv, lanes@);
    proof {
        assert forall|q: int| 0 <= q < ww.len() implies 0 <= #[trigger] ww[q] by {
            lemma_max_from_bounds(MIN_SLICE_WIDTH as int, slice_requirements(cv, slices@[q]));
        }
        assert forall|q: int| 0 <= q < hh.len() implies 0 <= #[trigger] hh[q] by {}
    }
    let ns = slices.len();
    let mut widths: Vec<u32> = Vec::new();
    for i in 0..ns
        invariant
            ns == slices@.len(),
            cv == cat_view(cat),
            cv == catalog(*diagram),
            slices@ == diagram.slice_seq(),
            svg_fits(*diagram),
            ww == slice_widths(cv, slices@),
            forall|q: int| 0 <= q < ww.len() ==> 0 <= #[trigger] ww[q],
            widths@.len() == i,
            forall|q: int| 0 <= q < i ==> widths@[q] == #[trigger] ww[q],
    {
        proof {
            lemma_sum_bounds(ww, i as int);
        }
        let w = slice_width_of(&cat, &slices[i]);
        widths.push(w);
    }
    assert(u32_ints(widths@) =~= ww);
    proof {
        assert forall|q: int| 0 <= q < lanes@.len() implies super::svg::measure::lane_height(cv, lanes@, q) <= 0x1000_0000 by {
            lemma_sum_bounds(hh, q);
        }
    }
    let heights = lane_heights_of(&cat, lanes);
    assert(u32_ints(heights@) =~= hh);
    let slices_total = prefix_sum(&widths, ns) as u64;
    let lanes_total = prefix_sum(&heights, heights.len()) as u64;
    assert(u32_ints(widths@).take(ns as int) =~= ww);
    assert(u32_ints(heights@).take(heights@.len() as int) =~= hh);
    let total_width: u64 = if ns > 0 { SWIMLANE_LABEL_WIDTH as u64 + slices_total } else { MIN_WIDTH as u64 };
    let total_height: u64 = SWIMLANES_START_Y as u64 + lanes_total + PADDING as u64;
    let mut svg = render_header(total_width, total_height, diagram.workflow_title().as_str());
    if ns > 0 {
        let headers = render_slice_headers(slices, &widths, total_width, total_height);
        append_str(&mut svg, headers.as_str());
    }
    let swimlanes = render_swimlanes(lanes, &heights, total_width);
    append_str(&mut svg, swimlanes.as_str());
    let placed = place_entities(&cat, lanes, slices, &widths, &heights);
    let boxes = render_boxes(&placed, Ghost(cv));
    append_str(&mut svg, boxes.as_str());
    let positions = record_positions(&placed);
    proof {
        assert forall|i: int| 0 <= i < slices@.len() implies (#[trigger] slices@[i]).connections@.len() <= usize::MAX by {
            assert(endpoint_count(slices@[i]) <= usize::MAX);
        }
    }
    let arrows = render_connections(slices, &positions);
    append_str(&mut svg, arrows.as_str());
    append_str(&mut svg, "</svg>");
    assert(svg@ =~= svg_document(*diagram));
    Ok(svg)
}

} // verus!
