//! The entity boxes: a coloured rectangle with the name's lines centred in
//! it, or for an automation a gear icon with the name below.

use super::catalog::{box_height, box_lines, name_height, EntityKind, EntryView, ENTITY_NAME_FONT_SIZE};
use super::frame::{num, push_num};
use super::measure::str_views;
use super::placement::{lines_hold, placed_view, placed_views, Placed, PlacedEntity};
use super::text_wrap::{line_px, text_height, text_lines, wrapped_lines, words};
use crate::infrastructure::text::{append_str, push_decimal};
use vstd::prelude::*;

verus! {

/// Height of a line of an entity name.
pub const LINE_HEIGHT: u32 = 12;

/// One line of a name, centred at `cx`, with its baseline at `y`.
pub open spec fn text_line_svg(cx: int, y: int, fill: Seq<char>, line: Seq<char>) -> Seq<char> {
    "  <text x=\""@ + num(cx) + "\" y=\""@ + num(y)
        + "\" font-family=\"Arial, sans-serif\" font-size=\"10\" fill=\""@ + fill + "\" text-anchor=\"middle\">"@
        + line + "</text>\n"@
}

/// The lines of a name, one line height apart from baseline `start`.
pub open spec fn text_lines_svg(cx: int, start: int, fill: Seq<char>, lines: Seq<Seq<char>>) -> Seq<char> {
    Seq::new(lines.len(), |i: int| text_line_svg(cx, start + i * LINE_HEIGHT, fill, lines[i])).flatten()
}

/// A box filled `bg` with the name's lines in `fill`, centred vertically.
pub open spec fn text_box_svg(p: Placed, lines: Seq<Seq<char>>, bg: Seq<char>, fill: Seq<char>) -> Seq<char> {
    "  <rect x=\""@ + num(p.x) + "\" y=\""@ + num(p.y) + "\" width=\""@ + num(p.width) + "\" height=\""@ + num(p.height)
        + "\" fill=\""@ + bg + "\" stroke=\"#cccccc\" stroke-width=\"1\"/>\n"@ + text_lines_svg(
        p.x + p.width / 2,
        p.y + (p.height - lines.len() * LINE_HEIGHT) / 2 + ENTITY_NAME_FONT_SIZE,
        fill,
        lines,
    )
}

/// An automation: the gear icon centred at the top, the name's lines
/// below it.
pub open spec fn automation_svg(p: Placed, lines: Seq<Seq<char>>) -> Seq<char> {
    "  <text x=\""@ + num(p.x + p.width / 2) + "\" y=\""@ + num(p.y + 25)
        + "\" font-family=\"Arial, sans-serif\" font-size=\"30\" text-anchor=\"middle\">\u{2699}\u{fe0f}</text>\n"@
        + text_lines_svg(p.x + p.width / 2, p.y + 55, "#333333"@, lines)
}

/// The drawing of a placed entity, coloured by its kind: views white,
/// commands blue, events purple, projections yellow, queries green, and
/// automations as a gear.
pub open spec fn box_svg(p: Placed) -> Seq<char> {
    let lines = box_lines(p.name);
    match p.kind {
        EntityKind::View => text_box_svg(p, lines, "#ffffff"@, "#333333"@),
        EntityKind::Command => text_box_svg(p, lines, "#4a90e2"@, "#ffffff"@),
        EntityKind::Event => text_box_svg(p, lines, "#9b59b6"@, "#ffffff"@),
        EntityKind::Projection => text_box_svg(p, lines, "#f1c40f"@, "#333333"@),
        EntityKind::Query => text_box_svg(p, lines, "#27ae60"@, "#ffffff"@),
        EntityKind::Automation => automation_svg(p, lines),
    }
}

/// The entity boxes, in order.
pub open spec fn boxes_svg(placed: Seq<Placed>) -> Seq<char> {
    "  <!-- Entities -->\n"@ + Seq::new(placed.len(), |k: int| box_svg(placed[k])).flatten()
}

/// A box is tall enough for the lines of its name.
pub proof fn lemma_lines_fit(cat: Seq<EntryView>, name: Seq<char>)
    ensures
        box_lines(name).len() * LINE_HEIGHT <= box_height(cat, name),
        box_lines(name).len() * LINE_HEIGHT <= name_height(name) + LINE_HEIGHT,
{
    assert(line_px(ENTITY_NAME_FONT_SIZE) == 12);
}

/// Appends the lines of a name.
fn push_text_lines(s: &mut String, cx: u64, start: u64, fill: &str, lines: &Vec<String>)
    requires
        start + lines@.len() * LINE_HEIGHT <= u64::MAX,
    ensures
        final(s)@ == old(s)@ + text_lines_svg(cx as int, start as int, fill@, str_views(lines@)),
{
    let ghost head = old(s)@;
    let ghost lv = str_views(lines@);
    let n = lines.len();
    let mut i: usize = 0;
    assert(s@ =~= head + Seq::new(0, |q: int| text_line_svg(cx as int, start + q * LINE_HEIGHT, fill@, lv[q])).flatten());
    while i < n
        invariant
            n == lines@.len(),
            lv == str_views(lines@),
            i <= n,
            start + n * LINE_HEIGHT <= u64::MAX,
            s@ == head + Seq::new(i as nat, |q: int| text_line_svg(cx as int, start + q * LINE_HEIGHT, fill@, lv[q])).flatten(),
        decreases n - i,
    {
        let ghost before = s@;
        let y = start + i as u64 * LINE_HEIGHT as u64;
        append_str(s, "  <text x=\"");
        push_num(s, cx);
        append_str(s, "\" y=\"");
        push_num(s, y);
        append_str(s, "\" font-family=\"Arial, sans-serif\" font-size=\"10\" fill=\"");
        append_str(s, fill);
        append_str(s, "\" text-anchor=\"middle\">");
        append_str(s, lines[i].as_str());
        append_str(s, "</text>\n");
        proof {
            let piece = text_line_svg(cx as int, start + i * LINE_HEIGHT, fill@, lv[i as int]);
            assert(s@ =~= before + piece);
            let prev = Seq::new(i as nat, |q: int| text_line_svg(cx as int, start + q * LINE_HEIGHT, fill@, lv[q]));
            prev.lemma_flatten_push(piece);
            assert(Seq::new((i + 1) as nat, |q: int| text_line_svg(cx as int, start + q * LINE_HEIGHT, fill@, lv[q]))
                =~= prev.push(piece));
        }
        i += 1;
    }
}

/// Appends a box with text, using the specified colors.
fn push_text_box(s: &mut String, p: &PlacedEntity, bg: &str, fill: &str)
    requires
        str_views(p.text_lines@).len() * LINE_HEIGHT <= p.position.height,
    ensures
        final(s)@ == old(s)@ + text_box_svg(placed_view(*p), str_views(p.text_lines@), bg@, fill@),
{
    let pos = &p.position;
    let x = pos.x as u64;
    let y = pos.y as u64;
    let w = pos.width as u64;
    let h = pos.height as u64;
    append_str(s, "  <rect x=\"");
    push_num(s, x);
    append_str(s, "\" y=\"");
    push_num(s, y);
    append_str(s, "\" width=\"");
    push_num(s, w);
    append_str(s, "\" height=\"");
    push_num(s, h);
    append_str(s, "\" fill=\"");
    append_str(s, bg);
    append_str(s, "\" stroke=\"#cccccc\" stroke-width=\"1\"/>\n");
    let ghost mid = s@;
    let total = p.text_lines.len() as u64 * LINE_HEIGHT as u64;
    let start = y + (h - total) / 2 + ENTITY_NAME_FONT_SIZE as u64;
    push_text_lines(s, x + w / 2, start, fill, &p.text_lines);
    assert(final(s)@ =~= old(s)@ + text_box_svg(placed_view(*p), str_views(p.text_lines@), bg@, fill@));
}

/// Appends an automation.
fn push_automation(s: &mut String, p: &PlacedEntity)
    requires
        str_views(p.text_lines@).len() * LINE_HEIGHT <= p.position.height,
    ensures
        final(s)@ == old(s)@ + automation_svg(placed_view(*p), str_views(p.text_lines@)),
{
    let pos = &p.position;
    let cx = pos.x as u64 + pos.width as u64 / 2;
    let y = pos.y as u64;
    append_str(s, "  <text x=\"");
    push_num(s, cx);
    append_str(s, "\" y=\"");
    push_num(s, y + 25);
    append_str(s, "\" font-family=\"Arial, sans-serif\" font-size=\"30\" text-anchor=\"middle\">\u{2699}\u{fe0f}</text>\n");
    push_text_lines(s, cx, y + 55, "#333333", &p.text_lines);
    assert(final(s)@ =~= old(s)@ + automation_svg(placed_view(*p), str_views(p.text_lines@)));
}

/// Renders the entity boxes.
pub fn render_boxes(placed: &Vec<PlacedEntity>, Ghost(cat): Ghost<Seq<EntryView>>) -> (r: String)
    requires
        lines_hold(cat, placed@),
    ensures
        r@ == boxes_svg(placed_views(placed@)),
{
    let ghost pv = placed_views(placed@);
    let mut s = String::new();
    append_str(&mut s, "  <!-- Entities -->\n");
    let ghost head = s@;
    let n = placed.len();
    let mut k: usize = 0;
    assert(s@ =~= head + Seq::new(0, |q: int| box_svg(pv[q])).flatten());
    while k < n
        invariant
            n == placed@.len(),
            pv == placed_views(placed@),
            lines_hold(cat, placed@),
            k <= n,
            s@ == head + Seq::new(k as nat, |q: int| box_svg(pv[q])).flatten(),
        decreases n - k,
    {
        let p = &placed[k];
        let ghost before = s@;
        proof {
            lemma_lines_fit(cat, p.name@);
            assert(str_views(placed@[k as int].text_lines@) == box_lines(placed@[k as int].name@));
        }
        match p.kind {
            EntityKind::View => push_text_box(&mut s, p, "#ffffff", "#333333"),
            EntityKind::Command => push_text_box(&mut s, p, "#4a90e2", "#ffffff"),
            EntityKind::Event => push_text_box(&mut s, p, "#9b59b6", "#ffffff"),
            EntityKind::Projection => push_text_box(&mut s, p, "#f1c40f", "#333333"),
            EntityKind::Query => push_text_box(&mut s, p, "#27ae60", "#ffffff"),
            EntityKind::Automation => push_automation(&mut s, p),
        }
        proof {
            let piece = box_svg(pv[k as int]);
            assert(pv[k as int] == placed_view(placed@[k as int]));
            assert(s@ == before + piece);
            let prev = Seq::new(k as nat, |q: int| box_svg(pv[q]));
            prev.lemma_flatten_push(piece);
            assert(Seq::new((k + 1) as nat, |q: int| box_svg(pv[q])) =~= prev.push(piece));
        }
        k += 1;
    }
    s
}

} // verus!
