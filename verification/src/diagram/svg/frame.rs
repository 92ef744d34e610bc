//! The frame of the drawing: the document header with the title, the
//! slice headers and the swimlanes with their labels and borders.

use super::measure::{lemma_sum_bounds, sum};
use super::placement::{lane_top, slice_left, u32_ints, SWIMLANES_START_Y, SWIMLANE_LABEL_WIDTH};
use crate::event_model::yaml_types::{Slice, Swimlane};
use crate::infrastructure::text::{append_str, decimal, push_decimal};
use crate::infrastructure::types::NonEmpty;
use vstd::prelude::*;

verus! {

broadcast use crate::infrastructure::types::lemma_non_empty_len;

/// Height of the title area.
pub const HEADER_HEIGHT: u32 = 50;

/// Height of the slice header area.
pub const SLICE_HEADER_HEIGHT: u32 = 30;

/// Padding around the drawing.
pub const PADDING: u32 = 20;

/// The decimal text of `n`.
#[verifier::opaque]
pub open spec fn num(n: int) -> Seq<char> {
    decimal(n as nat)
}

/// Appends the decimal text of `n`.
pub fn push_num(s: &mut String, n: u64)
    ensures
        final(s)@ == old(s)@ + num(n as int),
{
    reveal(num);
    push_decimal(s, n);
}

/// The document header: the XML declaration, the `svg` element sized
/// `width` by `height`, the arrowhead marker, the background and the title.
pub open spec fn header_svg(width: int, height: int, title: Seq<char>) -> Seq<char> {
    "<?xml version=\"1.0\" encoding=\"UTF-8\"?>\n<svg xmlns=\"http://www.w3.org/2000/svg\" viewBox=\"0 0 "@
        + num(width) + " "@ + num(height)
        + "\">\n  <!-- Arrow marker definition -->\n  <defs>\n    <marker id=\"arrowhead\" markerWidth=\"10\" markerHeight=\"7\" refX=\"9\" refY=\"3.5\" orient=\"auto\">\n      <polygon points=\"0 0, 10 3.5, 0 7\" fill=\"#333333\" />\n    </marker>\n  </defs>\n  \n  <!-- Canvas background -->\n  <rect x=\"0\" y=\"0\" width=\""@
        + num(width) + "\" height=\""@ + num(height)
        + "\" fill=\"#f8f8f8\" stroke=\"none\"/>\n  \n  <!-- Workflow title -->\n  <text x=\"20\" y=\"35\" font-family=\"Arial, sans-serif\" font-size=\"12\" font-weight=\"normal\" fill=\"#333333\">\n    "@
        + title + "\n  </text>\n"@
}

/// Writes the document header.
pub fn render_header(width: u64, height: u64, title: &str) -> (r: String)
    ensures
        r@ == header_svg(width as int, height as int, title@),
{
    let mut s = String::new();
    append_str(&mut s, "<?xml version=\"1.0\" encoding=\"UTF-8\"?>\n<svg xmlns=\"http://www.w3.org/2000/svg\" viewBox=\"0 0 ");
    push_num(&mut s, width);
    append_str(&mut s, " ");
    push_num(&mut s, height);
    append_str(&mut s, "\">\n  <!-- Arrow marker definition -->\n  <defs>\n    <marker id=\"arrowhead\" markerWidth=\"10\" markerHeight=\"7\" refX=\"9\" refY=\"3.5\" orient=\"auto\">\n      <polygon points=\"0 0, 10 3.5, 0 7\" fill=\"#333333\" />\n    </marker>\n  </defs>\n  \n  <!-- Canvas background -->\n  <rect x=\"0\" y=\"0\" width=\"");
    push_num(&mut s, width);
    append_str(&mut s, "\" height=\"");
    push_num(&mut s, height);
    append_str(&mut s, "\" fill=\"#f8f8f8\" stroke=\"none\"/>\n  \n  <!-- Workflow title -->\n  <text x=\"20\" y=\"35\" font-family=\"Arial, sans-serif\" font-size=\"12\" font-weight=\"normal\" fill=\"#333333\">\n    ");
    append_str(&mut s, title);
    append_str(&mut s, "\n  </text>\n");
    assert(s@ =~= header_svg(width as int, height as int, title@));
    s
}

/// A border line from (`x1`, `y1`) to (`x2`, `y2`).
pub open spec fn line_svg(x1: int, y1: int, x2: int, y2: int) -> Seq<char> {
    "  <line x1=\""@ + num(x1) + "\" y1=\""@ + num(y1) + "\" x2=\""@ + num(x2) + "\" y2=\""@ + num(y2)
        + "\" stroke=\"#cccccc\" stroke-width=\"1\"/>\n"@
}

/// Appends a border line.
fn push_line(s: &mut String, x1: u64, y1: u64, x2: u64, y2: u64)
    ensures
        final(s)@ == old(s)@ + line_svg(x1 as int, y1 as int, x2 as int, y2 as int),
{
    append_str(s, "  <line x1=\"");
    push_num(s, x1);
    append_str(s, "\" y1=\"");
    push_num(s, y1);
    append_str(s, "\" x2=\"");
    push_num(s, x2);
    append_str(s, "\" y2=\"");
    push_num(s, y2);
    append_str(s, "\" stroke=\"#cccccc\" stroke-width=\"1\"/>\n");
    assert(final(s)@ =~= old(s)@ + line_svg(x1 as int, y1 as int, x2 as int, y2 as int));
}

/// A swimlane's label, turned upright, centred at height `y` in the label
/// column.
pub open spec fn lane_label_svg(y: int, name: Seq<char>) -> Seq<char> {
    "  <text x=\"40\" y=\""@ + num(y)
        + "\" font-family=\"Arial, sans-serif\" font-size=\"10\" fill=\"#333333\" text-anchor=\"middle\" transform=\"rotate(-90 40 "@
        + num(y) + ")\">\n    "@ + name + "\n  </text>\n"@
}

/// Swimlane `i`: the line above it (but for the first), its label and the
/// line closing the label column.
pub open spec fn lane_svg(lanes: Seq<Swimlane>, heights: Seq<int>, width: int, i: int) -> Seq<char> {
    lane_piece(i, lane_top(heights, i), heights[i], width, lanes[i].name@)
}

/// A swimlane at `top`, `h` high, labelled `name`, in a drawing `width`
/// wide; `i` is its position.
pub open spec fn lane_piece(i: int, top: int, h: int, width: int, name: Seq<char>) -> Seq<char> {
    (if i > 0 {
        line_svg(0, top, width, top)
    } else {
        Seq::empty()
    }) + lane_label_svg(top + h / 2, name) + line_svg(
        SWIMLANE_LABEL_WIDTH as int,
        top,
        SWIMLANE_LABEL_WIDTH as int,
        top + h,
    )
}

/// The swimlanes: a line above the first, each swimlane, and a line below
/// the last.
pub open spec fn lanes_svg(lanes: Seq<Swimlane>, heights: Seq<int>, width: int) -> Seq<char> {
    let bottom = lane_top(heights, lanes.len() as int);
    "  <!-- Swimlanes -->\n"@ + line_svg(0, SWIMLANES_START_Y as int, width, SWIMLANES_START_Y as int) + Seq::new(
        lanes.len(),
        |i: int| lane_svg(lanes, heights, width, i),
    ).flatten() + line_svg(0, bottom, width, bottom)
}

/// Whether `t` stands in `s` from position `k` on.
pub open spec fn occurs_at(s: Seq<char>, t: Seq<char>, k: int) -> bool {
    0 <= k && k + t.len() <= s.len() && s.subrange(k, k + t.len()) == t
}

/// What stands in the middle of a concatenation stands in the whole,
/// shifted by the length of what comes before it.
pub(crate) proof fn lemma_occurs_in_concat(a: Seq<char>, b: Seq<char>, c: Seq<char>, t: Seq<char>, k: int)
    requires
        occurs_at(b, t, k),
    ensures
        occurs_at(a + b + c, t, a.len() + k),
{
    assert((a + b + c).subrange(a.len() + k, a.len() + k + t.len()) =~= b.subrange(k, k + t.len()));
}

/// What stands in a part stands in the whole.
proof fn lemma_occurs_within(s: Seq<char>, t: Seq<char>, u: Seq<char>, k: int, j: int)
    requires
        occurs_at(s, t, k),
        occurs_at(t, u, j),
    ensures
        occurs_at(s, u, k + j),
{
    assert(s.subrange(k + j, k + j + u.len()) =~= t.subrange(j, j + u.len()));
}

/// Each piece of a flattened sequence stands in it.
proof fn lemma_piece_in_flatten(ss: Seq<Seq<char>>, i: int) -> (k: int)
    requires
        0 <= i < ss.len(),
    ensures
        occurs_at(ss.flatten(), ss[i], k),
    decreases ss.len(),
{
    let rest = ss.drop_first().flatten();
    assert(ss.flatten() == ss.first() + rest);
    if i == 0 {
        assert((ss.first() + rest).subrange(0, ss[0].len() as int) =~= ss[0]);
        0
    } else {
        let j = lemma_piece_in_flatten(ss.drop_first(), i - 1);
        assert(ss.drop_first()[i - 1] == ss[i]);
        lemma_occurs_in_concat(ss.first(), rest, Seq::empty(), ss[i], j);
        assert(ss.first() + rest + Seq::<char>::empty() =~= ss.first() + rest);
        ss.first().len() + j
    }
}

/// Every swimlane is labelled with its own name: for each lane `i`, the
/// swimlanes section holds a text element, turned upright in the label
/// column and centred on the lane's height, whose text is the name of lane
/// `i`. The result is where that element starts.
pub proof fn lemma_lane_labels(lanes: Seq<Swimlane>, heights: Seq<int>, width: int, i: int) -> (k: int)
    requires
        heights.len() == lanes.len(),
        0 <= i < lanes.len(),
    ensures
        ({
            let y = lane_top(heights, i) + heights[i] / 2;
            occurs_at(
                lanes_svg(lanes, heights, width),
                "  <text x=\"40\" y=\""@ + num(y)
                    + "\" font-family=\"Arial, sans-serif\" font-size=\"10\" fill=\"#333333\" text-anchor=\"middle\" transform=\"rotate(-90 40 "@
                    + num(y) + ")\">\n    "@ + lanes[i].name@ + "\n  </text>\n"@,
                k,
            )
        }),
{
    let top = lane_top(heights, i);
    let y = top + heights[i] / 2;
    let label = lane_label_svg(y, lanes[i].name@);
    let opening: Seq<char> = if i > 0 {
        line_svg(0, top, width, top)
    } else {
        Seq::empty()
    };
    let closing = line_svg(SWIMLANE_LABEL_WIDTH as int, top, SWIMLANE_LABEL_WIDTH as int, top + heights[i]);
    let piece = lane_svg(lanes, heights, width, i);
    assert(piece == opening + label + closing);
    assert(label.subrange(0, label.len() as int) =~= label);
    lemma_occurs_in_concat(opening, label, closing, label, 0);
    let ss = Seq::new(lanes.len(), |q: int| lane_svg(lanes, heights, width, q));
    let j = lemma_piece_in_flatten(ss, i);
    let bottom = lane_top(heights, lanes.len() as int);
    let head = "  <!-- Swimlanes -->\n"@ + line_svg(0, SWIMLANES_START_Y as int, width, SWIMLANES_START_Y as int);
    let tail = line_svg(0, bottom, width, bottom);
    lemma_occurs_in_concat(head, ss.flatten(), tail, piece, j);
    assert(lanes_svg(lanes, heights, width) == head + ss.flatten() + tail);
    lemma_occurs_within(lanes_svg(lanes, heights, width), piece, label, head.len() + j, opening.len() as int);
    head.len() + j + opening.len()
}

/// Appends a swimlane.
fn push_lane(s: &mut String, i: usize, top: u64, h: u64, width: u64, name: &str)
    requires
        top + h <= u64::MAX,
    ensures
        final(s)@ == old(s)@ + lane_piece(i as int, top as int, h as int, width as int, name@),
{
    if i > 0 {
        push_line(s, 0, top, width, top);
    }
    let label_y = top + h / 2;
    append_str(s, "  <text x=\"40\" y=\"");
    push_num(s, label_y);
    append_str(
        s,
        "\" font-family=\"Arial, sans-serif\" font-size=\"10\" fill=\"#333333\" text-anchor=\"middle\" transform=\"rotate(-90 40 ",
    );
    push_num(s, label_y);
    append_str(s, ")\">\n    ");
    append_str(s, name);
    append_str(s, "\n  </text>\n");
    push_line(s, SWIMLANE_LABEL_WIDTH as u64, top, SWIMLANE_LABEL_WIDTH as u64, top + h);
    assert(final(s)@ =~= old(s)@ + lane_piece(i as int, top as int, h as int, width as int, name@));
}

/// Renders the swimlanes with labels and dividers.
pub fn render_swimlanes(lanes: &NonEmpty<Swimlane>, heights: &Vec<u32>, total_width: u64) -> (r: String)
    requires
        lanes@.len() <= usize::MAX,
        heights@.len() == lanes@.len(),
        SWIMLANES_START_Y + sum(u32_ints(heights@)) <= 0x1000_0000,
    ensures
        r@ == lanes_svg(lanes@, u32_ints(heights@), total_width as int),
{
    let ghost hh = u32_ints(heights@);
    let ghost w = total_width as int;
    let mut s = String::new();
    append_str(&mut s, "  <!-- Swimlanes -->\n");
    let start: u64 = SWIMLANES_START_Y as u64;
    push_line(&mut s, 0, start, total_width, start);
    let ghost head = s@;
    let n = lanes.len();
    let mut current_y: u64 = start;
    let mut i: usize = 0;
    assert(hh.take(0) =~= Seq::<int>::empty());
    assert(s@ =~= head + Seq::new(0, |q: int| lane_svg(lanes@, hh, w, q)).flatten());
    while i < n
        invariant
            n == lanes@.len(),
            heights@.len() == n,
            hh == u32_ints(heights@),
            w == total_width as int,
            i <= n,
            SWIMLANES_START_Y + sum(hh) <= 0x1000_0000,
            current_y == lane_top(hh, i as int),
            s@ == head + Seq::new(i as nat, |q: int| lane_svg(lanes@, hh, w, q)).flatten(),
        decreases n - i,
    {
        proof {
            lemma_sum_bounds(hh, i as int);
            assert(hh.take(i + 1).drop_last() =~= hh.take(i as int));
        }
        let h = heights[i] as u64;
        let ghost before = s@;
        push_lane(&mut s, i, current_y, h, total_width, lanes.get(i).name.clone().into_inner().as_str());
        proof {
            let piece = lane_svg(lanes@, hh, w, i as int);
            let prev = Seq::new(i as nat, |q: int| lane_svg(lanes@, hh, w, q));
            prev.lemma_flatten_push(piece);
            assert(Seq::new((i + 1) as nat, |q: int| lane_svg(lanes@, hh, w, q)) =~= prev.push(piece));
        }
        current_y = current_y + h;
        i += 1;
    }
    push_line(&mut s, 0, current_y, total_width, current_y);
    s
}

/// Slice `i`'s header: the divider before it (but for the first) and its
/// name centred over it.
pub open spec fn slice_header_svg(slices: Seq<Slice>, widths: Seq<int>, total_height: int, i: int) -> Seq<char> {
    let x = slice_left(widths, i);
    (if i > 0 {
        line_svg(x, HEADER_HEIGHT as int, x, total_height - PADDING)
    } else {
        Seq::empty()
    }) + "  <text x=\""@ + num(x + widths[i] / 2)
        + "\" y=\"68\" font-family=\"Arial, sans-serif\" font-size=\"11\" fill=\"#333333\" text-anchor=\"middle\">\n    "@
        + slices[i].name@ + "\n  </text>\n"@
}

/// The slice headers and the line below them.
pub open spec fn slice_headers_svg(slices: Seq<Slice>, widths: Seq<int>, total_width: int, total_height: int) -> Seq<char> {
    "  <!-- Slice headers -->\n"@ + Seq::new(
        slices.len(),
        |i: int| slice_header_svg(slices, widths, total_height, i),
    ).flatten() + line_svg(
        SWIMLANE_LABEL_WIDTH as int,
        (HEADER_HEIGHT + SLICE_HEADER_HEIGHT) as int,
        total_width,
        (HEADER_HEIGHT + SLICE_HEADER_HEIGHT) as int,
    )
}

/// Every slice header is labelled with its own slice's name: for each
/// slice `i`, the slice headers hold a text element centred over the
/// slice's column whose text is the name of slice `i`. The result is where
/// that element starts.
pub proof fn lemma_slice_header_labels(slices: Seq<Slice>, widths: Seq<int>, total_width: int, total_height: int, i: int) -> (k: int)
    requires
        widths.len() == slices.len(),
        0 <= i < slices.len(),
    ensures
        occurs_at(
            slice_headers_svg(slices, widths, total_width, total_height),
            "  <text x=\""@ + num(slice_left(widths, i) + widths[i] / 2)
                + "\" y=\"68\" font-family=\"Arial, sans-serif\" font-size=\"11\" fill=\"#333333\" text-anchor=\"middle\">\n    "@
                + slices[i].name@ + "\n  </text>\n"@,
            k,
        ),
{
    let x = slice_left(widths, i);
    let label = "  <text x=\""@ + num(x + widths[i] / 2)
        + "\" y=\"68\" font-family=\"Arial, sans-serif\" font-size=\"11\" fill=\"#333333\" text-anchor=\"middle\">\n    "@
        + slices[i].name@ + "\n  </text>\n"@;
    let opening: Seq<char> = if i > 0 {
        line_svg(x, HEADER_HEIGHT as int, x, total_height - PADDING)
    } else {
        Seq::empty()
    };
    let piece = slice_header_svg(slices, widths, total_height, i);
    assert(piece =~= opening + label + Seq::<char>::empty());
    assert(label.subrange(0, label.len() as int) =~= label);
    lemma_occurs_in_concat(opening, label, Seq::empty(), label, 0);
    let ss = Seq::new(slices.len(), |q: int| slice_header_svg(slices, widths, total_height, q));
    let j = lemma_piece_in_flatten(ss, i);
    let head = "  <!-- Slice headers -->\n"@;
    let tail = line_svg(
        SWIMLANE_LABEL_WIDTH as int,
        (HEADER_HEIGHT + SLICE_HEADER_HEIGHT) as int,
        total_width,
        (HEADER_HEIGHT + SLICE_HEADER_HEIGHT) as int,
    );
    lemma_occurs_in_concat(head, ss.flatten(), tail, piece, j);
    assert(slice_headers_svg(slices, widths, total_width, total_height) == head + ss.flatten() + tail);
    lemma_occurs_within(slice_headers_svg(slices, widths, total_width, total_height), piece, label, head.len() + j, opening.len() as int);
    head.len() + j + opening.len()
}

/// Renders the slice headers with dividers.
pub fn render_slice_headers(slices: &[Slice], widths: &Vec<u32>, total_width: u64, total_height: u64) -> (r: String)
    requires
        widths@.len() == slices@.len(),
        SWIMLANE_LABEL_WIDTH + sum(u32_ints(widths@)) <= 0x1000_0000,
        total_height >= PADDING,
    ensures
        r@ == slice_headers_svg(slices@, u32_ints(widths@), total_width as int, total_height as int),
{
    let ghost ww = u32_ints(widths@);
    let mut s = String::new();
    append_str(&mut s, "  <!-- Slice headers -->\n");
    let ghost head = s@;
    let n = slices.len();
    let mut current_x: u64 = SWIMLANE_LABEL_WIDTH as u64;
    let mut i: usize = 0;
    assert(ww.take(0) =~= Seq::<int>::empty());
    assert(s@ =~= head + Seq::new(0, |q: int| slice_header_svg(slices@, ww, total_height as int, q)).flatten());
    while i < n
        invariant
            n == slices@.len(),
            widths@.len() == n,
            ww == u32_ints(widths@),
            i <= n,
            total_height >= PADDING,
            SWIMLANE_LABEL_WIDTH + sum(ww) <= 0x1000_0000,
            current_x == slice_left(ww, i as int),
            s@ == head + Seq::new(i as nat, |q: int| slice_header_svg(slices@, ww, total_height as int, q)).flatten(),
        decreases n - i,
    {
        proof {
            lemma_sum_bounds(ww, i as int);
            assert(ww.take(i + 1).drop_last() =~= ww.take(i as int));
        }
        let w = widths[i] as u64;
        let ghost before = s@;
        if i > 0 {
            push_line(&mut s, current_x, HEADER_HEIGHT as u64, current_x, total_height - PADDING as u64);
        }
        append_str(&mut s, "  <text x=\"");
        push_num(&mut s, current_x + w / 2);
        append_str(
            &mut s,
            "\" y=\"68\" font-family=\"Arial, sans-serif\" font-size=\"11\" fill=\"#333333\" text-anchor=\"middle\">\n    ",
        );
        append_str(&mut s, slices[i].name.clone().into_inner().as_str());
        append_str(&mut s, "\n  </text>\n");
        proof {
            let piece = slice_header_svg(slices@, ww, total_height as int, i as int);
            assert(s@ =~= before + piece);
            let prev = Seq::new(i as nat, |q: int| slice_header_svg(slices@, ww, total_height as int, q));
            prev.lemma_flatten_push(piece);
            assert(Seq::new((i + 1) as nat, |q: int| slice_header_svg(slices@, ww, total_height as int, q)) =~= prev.push(piece));
        }
        current_x = current_x + w;
        i += 1;
    }
    let line_y = (HEADER_HEIGHT + SLICE_HEADER_HEIGHT) as u64;
    push_line(&mut s, SWIMLANE_LABEL_WIDTH as u64, line_y, total_width, line_y);
    s
}

} // verus!
