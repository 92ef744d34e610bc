//! What the renderer knows of each entity of a diagram: its kind, name and
//! swimlane, and the size of the box its name needs.

use super::text_wrap::{
    format_entity_name, lemma_spaced_prefix_len, spaced_name, text_height, text_lines, text_width, wrap_text,
    ENTITY_BOX_WIDTH,
};
use crate::diagram::builder::EventModelDiagram;
use crate::event_model::yaml_types;
use vstd::prelude::*;

verus! {

/// Minimum height of entity boxes.
pub const ENTITY_BOX_HEIGHT: u32 = 60;

/// Padding inside entity boxes.
pub const ENTITY_PADDING: u32 = 10;

/// Width available to an entity name: the box width less the padding on
/// both sides.
pub const NAME_TEXT_WIDTH: u32 = 100;

/// Font size of entity names.
pub const ENTITY_NAME_FONT_SIZE: u32 = 10;

/// Size of the automation icon.
pub const ROBOT_ICON_SIZE: u32 = 30;

/// Space between the automation icon and its name.
pub const ICON_TEXT_SPACING: u32 = 5;

/// The kinds of entities a diagram draws.
#[derive(Debug, Clone, Copy, PartialEq, Eq, Structural)]
pub enum EntityKind {
    /// A view.
    View,
    /// A command.
    Command,
    /// An event.
    Event,
    /// A projection.
    Projection,
    /// A query.
    Query,
    /// An automation.
    Automation,
}

/// One entity of the diagram: its kind, its name and its swimlane's id.
#[derive(Debug, Clone)]
pub struct CatalogEntry {
    /// The kind.
    pub kind: EntityKind,
    /// The name.
    pub name: String,
    /// The id of its swimlane.
    pub lane: String,
}

/// An entity as the specifications see it.
pub type EntryView = (EntityKind, Seq<char>, Seq<char>);

/// The view of an entry.
pub open spec fn entry_view(e: CatalogEntry) -> EntryView {
    (e.kind, e.name@, e.lane@)
}

/// All entities of `d`: the views, commands, events, projections, queries
/// and automations, each kind in the diagram's order.
pub open spec fn catalog(d: EventModelDiagram) -> Seq<EntryView> {
    view_entries(d) + command_entries(d) + event_entries(d) + projection_entries(d) + query_entries(d)
        + automation_entries(d)
}

/// The views of `d` as entries.
pub open spec fn view_entries(d: EventModelDiagram) -> Seq<EntryView> {
    d.view_seq().map_values(|p: (yaml_types::ViewName, yaml_types::ViewDefinition)| (EntityKind::View, p.0@, p.1.swimlane@))
}

/// Appends the views of `d`.
fn push_views(out: &mut Vec<CatalogEntry>, d: &EventModelDiagram)
    ensures
        final(out)@.map_values(|e: CatalogEntry| entry_view(e)) == old(out)@.map_values(|e: CatalogEntry| entry_view(e)) + view_entries(*d),
{
    let ghost start = out@.map_values(|e: CatalogEntry| entry_view(e));
    let items = d.views();
    let ghost all = view_entries(*d);
    let n = items.len();
    for i in 0..n
        invariant
            n == items@.len(),
            items@ == d.view_seq(),
            all == view_entries(*d),
            out@.map_values(|e: CatalogEntry| entry_view(e)) == start + all.take(i as int),
    {
        let name = items[i].0.clone().into_inner().as_str().to_string();
        let lane = items[i].1.swimlane.clone().into_inner().as_str().to_string();
        let ghost before = out@.map_values(|e: CatalogEntry| entry_view(e));
        out.push(CatalogEntry { kind: EntityKind::View, name, lane });
        assert(out@.map_values(|e: CatalogEntry| entry_view(e)) =~= before.push(all[i as int]));
        assert(all.take(i + 1) =~= all.take(i as int).push(all[i as int]));
    }
    assert(all.take(n as int) =~= all);
}

/// The commands of `d` as entries.
pub open spec fn command_entries(d: EventModelDiagram) -> Seq<EntryView> {
    d.command_seq().map_values(|p: (yaml_types::CommandName, yaml_types::CommandDefinition)| (EntityKind::Command, p.0@, p.1.swimlane@))
}

/// Appends the commands of `d`.
fn push_commands(out: &mut Vec<CatalogEntry>, d: &EventModelDiagram)
    ensures
        final(out)@.map_values(|e: CatalogEntry| entry_view(e)) == old(out)@.map_values(|e: CatalogEntry| entry_view(e)) + command_entries(*d),
{
    let ghost start = out@.map_values(|e: CatalogEntry| entry_view(e));
    let items = d.commands();
    let ghost all = command_entries(*d);
    let n = items.len();
    for i in 0..n
        invariant
            n == items@.len(),
            items@ == d.command_seq(),
            all == command_entries(*d),
            out@.map_values(|e: CatalogEntry| entry_view(e)) == start + all.take(i as int),
    {
        let name = items[i].0.clone().into_inner().as_str().to_string();
        let lane = items[i].1.swimlane.clone().into_inner().as_str().to_string();
        let ghost before = out@.map_values(|e: CatalogEntry| entry_view(e));
        out.push(CatalogEntry { kind: EntityKind::Command, name, lane });
        assert(out@.map_values(|e: CatalogEntry| entry_view(e)) =~= before.push(all[i as int]));
        assert(all.take(i + 1) =~= all.take(i as int).push(all[i as int]));
    }
    assert(all.take(n as int) =~= all);
}

/// The events of `d` as entries.
pub open spec fn event_entries(d: EventModelDiagram) -> Seq<EntryView> {
    d.event_seq().map_values(|p: (yaml_types::EventName, yaml_types::EventDefinition)| (EntityKind::Event, p.0@, p.1.swimlane@))
}

/// Appends the events of `d`.
fn push_events(out: &mut Vec<CatalogEntry>, d: &EventModelDiagram)
    ensures
        final(out)@.map_values(|e: CatalogEntry| entry_view(e)) == old(out)@.map_values(|e: CatalogEntry| entry_view(e)) + event_entries(*d),
{
    let ghost start = out@.map_values(|e: CatalogEntry| entry_view(e));
    let items = d.events();
    let ghost all = event_entries(*d);
    let n = items.len();
    for i in 0..n
        invariant
            n == items@.len(),
            items@ == d.event_seq(),
            all == event_entries(*d),
            out@.map_values(|e: CatalogEntry| entry_view(e)) == start + all.take(i as int),
    {
        let name = items[i].0.clone().into_inner().as_str().to_string();
        let lane = items[i].1.swimlane.clone().into_inner().as_str().to_string();
        let ghost before = out@.map_values(|e: CatalogEntry| entry_view(e));
        out.push(CatalogEntry { kind: EntityKind::Event, name, lane });
        assert(out@.map_values(|e: CatalogEntry| entry_view(e)) =~= before.push(all[i as int]));
        assert(all.take(i + 1) =~= all.take(i as int).push(all[i as int]));
    }
    assert(all.take(n as int) =~= all);
}

/// The projections of `d` as entries.
pub open spec fn projection_entries(d: EventModelDiagram) -> Seq<EntryView> {
    d.projection_seq().map_values(|p: (yaml_types::ProjectionName, yaml_types::ProjectionDefinition)| (EntityKind::Projection, p.0@, p.1.swimlane@))
}

/// Appends the projections of `d`.
fn push_projections(out: &mut Vec<CatalogEntry>, d: &EventModelDiagram)
    ensures
        final(out)@.map_values(|e: CatalogEntry| entry_view(e)) == old(out)@.map_values(|e: CatalogEntry| entry_view(e)) + projection_entries(*d),
{
    let ghost start = out@.map_values(|e: CatalogEntry| entry_view(e));
    let items = d.projections();
    let ghost all = projection_entries(*d);
    let n = items.len();
    for i in 0..n
        invariant
            n == items@.len(),
            items@ == d.projection_seq(),
            all == projection_entries(*d),
            out@.map_values(|e: CatalogEntry| entry_view(e)) == start + all.take(i as int),
    {
        let name = items[i].0.clone().into_inner().as_str().to_string();
        let lane = items[i].1.swimlane.clone().into_inner().as_str().to_string();
        let ghost before = out@.map_values(|e: CatalogEntry| entry_view(e));
        out.push(CatalogEntry { kind: EntityKind::Projection, name, lane });
        assert(out@.map_values(|e: CatalogEntry| entry_view(e)) =~= before.push(all[i as int]));
        assert(all.take(i + 1) =~= all.take(i as int).push(all[i as int]));
    }
    assert(all.take(n as int) =~= all);
}

/// The queries of `d` as entries.
pub open spec fn query_entries(d: EventModelDiagram) -> Seq<EntryView> {
    d.query_seq().map_values(|p: (yaml_types::QueryName, yaml_types::QueryDefinition)| (EntityKind::Query, p.0@, p.1.swimlane@))
}

/// Appends the queries of `d`.
fn push_queries(out: &mut Vec<CatalogEntry>, d: &EventModelDiagram)
    ensures
        final(out)@.map_values(|e: CatalogEntry| entry_view(e)) == old(out)@.map_values(|e: CatalogEntry| entry_view(e)) + query_entries(*d),
{
    let ghost start = out@.map_values(|e: CatalogEntry| entry_view(e));
    let items = d.queries();
    let ghost all = query_entries(*d);
    let n = items.len();
    for i in 0..n
        invariant
            n == items@.len(),
            items@ == d.query_seq(),
            all == query_entries(*d),
            out@.map_values(|e: CatalogEntry| entry_view(e)) == start + all.take(i as int),
    {
        let name = items[i].0.clone().into_inner().as_str().to_string();
        let lane = items[i].1.swimlane.clone().into_inner().as_str().to_string();
        let ghost before = out@.map_values(|e: CatalogEntry| entry_view(e));
        out.push(CatalogEntry { kind: EntityKind::Query, name, lane });
        assert(out@.map_values(|e: CatalogEntry| entry_view(e)) =~= before.push(all[i as int]));
        assert(all.take(i + 1) =~= all.take(i as int).push(all[i as int]));
    }
    assert(all.take(n as int) =~= all);
}

/// The automations of `d` as entries.
pub open spec fn automation_entries(d: EventModelDiagram) -> Seq<EntryView> {
    d.automation_seq().map_values(|p: (yaml_types::AutomationName, yaml_types::AutomationDefinition)| (EntityKind::Automation, p.0@, p.1.swimlane@))
}

/// Appends the automations of `d`.
fn push_automations(out: &mut Vec<CatalogEntry>, d: &EventModelDiagram)
    ensures
        final(out)@.map_values(|e: CatalogEntry| entry_view(e)) == old(out)@.map_values(|e: CatalogEntry| entry_view(e)) + automation_entries(*d),
{
    let ghost start = out@.map_values(|e: CatalogEntry| entry_view(e));
    let items = d.automations();
    let ghost all = automation_entries(*d);
    let n = items.len();
    for i in 0..n
        invariant
            n == items@.len(),
            items@ == d.automation_seq(),
            all == automation_entries(*d),
            out@.map_values(|e: CatalogEntry| entry_view(e)) == start + all.take(i as int),
    {
        let name = items[i].0.clone().into_inner().as_str().to_string();
        let lane = items[i].1.swimlane.clone().into_inner().as_str().to_string();
        let ghost before = out@.map_values(|e: CatalogEntry| entry_view(e));
        out.push(CatalogEntry { kind: EntityKind::Automation, name, lane });
        assert(out@.map_values(|e: CatalogEntry| entry_view(e)) =~= before.push(all[i as int]));
        assert(all.take(i + 1) =~= all.take(i as int).push(all[i as int]));
    }
    assert(all.take(n as int) =~= all);
}

/// All entities of `d`, in the order of `catalog`.
pub fn build_catalog(d: &EventModelDiagram) -> (r: Vec<CatalogEntry>)
    ensures
        r@.map_values(|e: CatalogEntry| entry_view(e)) == catalog(*d),
{
    let mut out: Vec<CatalogEntry> = Vec::new();
    assert(out@.map_values(|e: CatalogEntry| entry_view(e)) =~= Seq::<EntryView>::empty());
    push_views(&mut out, d);
    push_commands(&mut out, d);
    push_events(&mut out, d);
    push_projections(&mut out, d);
    push_queries(&mut out, d);
    push_automations(&mut out, d);
    out
}

/// Whether `name` is an automation's name.
pub open spec fn is_automation(cat: Seq<EntryView>, name: Seq<char>) -> bool {
    exists|k: int| 0 <= k < cat.len() && (#[trigger] cat[k]).0 == EntityKind::Automation && cat[k].1 == name
}

/// The lines of a box's name.
pub open spec fn box_lines(name: Seq<char>) -> Seq<Seq<char>> {
    text_lines(spaced_name(name), NAME_TEXT_WIDTH, ENTITY_NAME_FONT_SIZE)
}

/// The width the name's text needs.
pub open spec fn name_width(name: Seq<char>) -> nat {
    text_width(spaced_name(name), NAME_TEXT_WIDTH, ENTITY_NAME_FONT_SIZE)
}

/// The height the name's text needs.
pub open spec fn name_height(name: Seq<char>) -> nat {
    text_height(spaced_name(name), NAME_TEXT_WIDTH, ENTITY_NAME_FONT_SIZE)
}

/// The width of the box drawn for `name`: an automation's icon and name
/// with padding, or else at least the standard box width.
pub open spec fn box_width(cat: Seq<EntryView>, name: Seq<char>) -> int {
    let tw = name_width(name);
    if is_automation(cat, name) {
        (if tw > ROBOT_ICON_SIZE { tw as int } else { ROBOT_ICON_SIZE as int }) + 2 * ENTITY_PADDING
    } else if tw > ENTITY_BOX_WIDTH {
        tw as int
    } else {
        ENTITY_BOX_WIDTH as int
    }
}

/// The height of the box drawn for `name`: an automation's icon, spacing,
/// name and padding, or else the name with padding, at least the standard
/// box height.
pub open spec fn box_height(cat: Seq<EntryView>, name: Seq<char>) -> int {
    let th = name_height(name);
    if is_automation(cat, name) {
        ROBOT_ICON_SIZE + ICON_TEXT_SPACING + th + 2 * ENTITY_PADDING
    } else if th + 2 * ENTITY_PADDING > ENTITY_BOX_HEIGHT {
        th + 2 * ENTITY_PADDING
    } else {
        ENTITY_BOX_HEIGHT as int
    }
}

/// Whether every entity name is short enough to be measured.
pub open spec fn names_measurable(cat: Seq<EntryView>) -> bool {
    forall|k: int| 0 <= k < cat.len() ==> (#[trigger] cat[k]).1.len() <= 0x8_0000
}

/// Information about entity dimensions.
#[derive(Debug, Clone)]
pub struct EntityDimensions {
    /// Width of the box.
    pub width: u32,
    /// Height of the box.
    pub height: u32,
    /// The lines of the name.
    pub text_lines: Vec<String>,
}

/// Whether `name` is an automation's name.
fn is_automation_name(cat: &Vec<CatalogEntry>, name: &str) -> (r: bool)
    ensures
        r == is_automation(cat@.map_values(|e: CatalogEntry| entry_view(e)), name@),
{
    let ghost cv = cat@.map_values(|e: CatalogEntry| entry_view(e));
    let n = cat.len();
    for i in 0..n
        invariant
            n == cat@.len(),
            cv == cat@.map_values(|e: CatalogEntry| entry_view(e)),
            forall|k: int| 0 <= k < i ==> !((#[trigger] cv[k]).0 == EntityKind::Automation && cv[k].1 == name@),
    {
        if cat[i].kind == EntityKind::Automation && crate::infrastructure::text::str_equal(cat[i].name.as_str(), name) {
            assert(cv[i as int].0 == EntityKind::Automation && cv[i as int].1 == name@);
            return true;
        }
    }
    false
}

/// Calculates the box an entity's name needs.
pub fn dims_for(cat: &Vec<CatalogEntry>, name: &str) -> (r: EntityDimensions)
    requires
        name@.len() <= 0x8_0000,
    ensures
        r.width == box_width(cat@.map_values(|e: CatalogEntry| entry_view(e)), name@),
        r.height == box_height(cat@.map_values(|e: CatalogEntry| entry_view(e)), name@),
        r.text_lines@.map_values(|l: String| l@) == box_lines(name@),
        r.width <= 0x1000_0020,
        r.height <= 0x1000_0040,
{
    let formatted = format_entity_name(name);
    proof {
        lemma_spaced_prefix_len(name@, name@.len() as int);
    }
    let (text_lines, text_width, text_height) = wrap_text(
        formatted.as_str(),
        NAME_TEXT_WIDTH,
        ENTITY_NAME_FONT_SIZE,
    );
    if is_automation_name(cat, name) {
        let inner = if text_width > ROBOT_ICON_SIZE { text_width } else { ROBOT_ICON_SIZE };
        EntityDimensions {
            width: inner + 2 * ENTITY_PADDING,
            height: ROBOT_ICON_SIZE + ICON_TEXT_SPACING + text_height + 2 * ENTITY_PADDING,
            text_lines,
        }
    } else {
        let total_text_height = text_height + 2 * ENTITY_PADDING;
        EntityDimensions {
            width: if text_width > ENTITY_BOX_WIDTH { text_width } else { ENTITY_BOX_WIDTH },
            height: if total_text_height > ENTITY_BOX_HEIGHT { total_text_height } else { ENTITY_BOX_HEIGHT },
            text_lines,
        }
    }
}

} // verus!
