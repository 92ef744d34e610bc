//! Validation of a YAML model as read from a file into the domain model.
//!
//! Every name, description and type must be non-empty, every entity's
//! swimlane must be declared, and collections that the domain requires to
//! be non-empty must be so. Conversion stops at the first problem, in the
//! order: swimlanes, events, commands, views, projections, queries,
//! automations, slices, version, workflow; within a section, entry by
//! entry, and within an entry in the order of its fields. The spec
//! functions `*_error` say which problem is reported; `*_converted` say
//! what the result holds.

use super::yaml_parser::{
    slice_at, slice_count, slice_entries, texts, YamlAutomation, YamlCommand, YamlComplexComponent,
    YamlComponent, YamlEvent, YamlEventModel as ParsedModel, YamlField, YamlProjection, YamlQuery,
    YamlQueryOutput, YamlQueryVariant, YamlSwimlane, YamlTestScenario, YamlTestStep, YamlView,
};
use crate::event_model::yaml_types as domain;
use crate::infrastructure::text::{append_str, to_lowercase, trim, unicode_lowercase, unicode_trim};
use crate::infrastructure::types::{NonEmpty, NonEmptyString, ParseError};
use indexmap::IndexMap;
use vstd::prelude::*;

verus! {

broadcast use crate::infrastructure::types::lemma_non_empty_len;

/// Errors that can occur during conversion.
#[derive(Debug)]
pub enum ConversionError {
    /// A required field was empty.
    EmptyField(String),
    /// An unknown swimlane was referenced.
    UnknownSwimlane(String),
    /// A slice connection was invalid.
    InvalidConnection(String),
    /// A collection that must be non-empty was empty.
    EmptyCollection(String),
    /// A parse error occurred.
    ParseError(ParseError),
}

/// The content of a `ConversionError`.
pub enum ErrorModel {
    EmptyField(Seq<char>),
    UnknownSwimlane(Seq<char>),
    InvalidConnection(Seq<char>),
    EmptyCollection(Seq<char>),
    ParseError(ParseError),
}

impl View for ConversionError {
    type V = ErrorModel;

    open spec fn view(&self) -> ErrorModel {
        match self {
            ConversionError::EmptyField(s) => ErrorModel::EmptyField(s@),
            ConversionError::UnknownSwimlane(s) => ErrorModel::UnknownSwimlane(s@),
            ConversionError::InvalidConnection(s) => ErrorModel::InvalidConnection(s@),
            ConversionError::EmptyCollection(s) => ErrorModel::EmptyCollection(s@),
            ConversionError::ParseError(e) => ErrorModel::ParseError(*e),
        }
    }
}

impl ConversionError {
    /// The error message.
    pub fn message(&self) -> (r: String)
        ensures
            self@ matches ErrorModel::EmptyField(s) ==> r@ == "Field '"@ + s + "' cannot be empty"@,
            self@ matches ErrorModel::UnknownSwimlane(s) ==> r@ == "Unknown swimlane reference: "@ + s,
            self@ matches ErrorModel::InvalidConnection(s) ==> r@ == "Invalid connection syntax: "@ + s,
            self@ matches ErrorModel::EmptyCollection(s) ==> r@ == "Collection '"@ + s + "' must not be empty"@,
            self@ matches ErrorModel::ParseError(e) ==> r@ == "Parse error: "@ + e.text(),
    {
        match self {
            ConversionError::EmptyField(s) => {
                let mut m = "Field '".to_owned();
                append_str(&mut m, s.as_str());
                append_str(&mut m, "' cannot be empty");
                m
            },
            ConversionError::UnknownSwimlane(s) => {
                let mut m = "Unknown swimlane reference: ".to_owned();
                append_str(&mut m, s.as_str());
                m
            },
            ConversionError::InvalidConnection(s) => {
                let mut m = "Invalid connection syntax: ".to_owned();
                append_str(&mut m, s.as_str());
                m
            },
            ConversionError::EmptyCollection(s) => {
                let mut m = "Collection '".to_owned();
                append_str(&mut m, s.as_str());
                append_str(&mut m, "' must not be empty");
                m
            },
            ConversionError::ParseError(e) => {
                let mut m = "Parse error: ".to_owned();
                append_str(&mut m, e.message());
                m
            },
        }
    }
}

// ---------------------------------------------------------------------------
// Which problem is reported
// ---------------------------------------------------------------------------

/// `a` if it is an error, else `b`.
pub open spec fn or_else(a: Option<ErrorModel>, b: Option<ErrorModel>) -> Option<ErrorModel> {
    if a is Some {
        a
    } else {
        b
    }
}

/// The error for an empty text, labelled with the field's name.
pub open spec fn empty_field(s: Seq<char>, label: Seq<char>) -> Option<ErrorModel> {
    if s.len() == 0 {
        Some(ErrorModel::EmptyField(label))
    } else {
        None
    }
}

/// The error for an empty collection, labelled with its name.
pub open spec fn empty_collection(n: nat, label: Seq<char>) -> Option<ErrorModel> {
    if n == 0 {
        Some(ErrorModel::EmptyCollection(label))
    } else {
        None
    }
}

/// The error for a swimlane that is not among the declared ones.
pub open spec fn unknown_swimlane(s: Seq<char>, ids: Seq<Seq<char>>) -> Option<ErrorModel> {
    if !ids.contains(s) {
        Some(ErrorModel::UnknownSwimlane(s))
    } else {
        None
    }
}

/// The first empty key or value of a list of text pairs.
pub open spec fn pairs_error(ps: Seq<(String, String)>, key_label: Seq<char>, value_label: Seq<char>) -> Option<
    ErrorModel,
>
    decreases ps.len(),
{
    if ps.len() == 0 {
        None
    } else {
        or_else(
            or_else(empty_field(ps[0].0@, key_label), empty_field(ps[0].1@, value_label)),
            pairs_error(ps.drop_first(), key_label, value_label),
        )
    }
}

/// The first empty text of a list.
pub open spec fn texts_error(ts: Seq<String>, label: Seq<char>) -> Option<ErrorModel>
    decreases ts.len(),
{
    if ts.len() == 0 {
        None
    } else {
        or_else(empty_field(ts[0]@, label), texts_error(ts.drop_first(), label))
    }
}

/// The swimlanes as (id, name) pairs: a simple swimlane is its own id.
pub open spec fn swimlane_pairs(ls: Seq<YamlSwimlane>) -> Seq<(String, String)>
    decreases ls.len(),
{
    if ls.len() == 0 {
        Seq::empty()
    } else {
        swimlane_pairs(ls.drop_last()) + match ls.last() {
            YamlSwimlane::Simple(n) => seq![(n, n)],
            YamlSwimlane::Mapped(m) => m@,
        }
    }
}

/// The problem with the swimlanes, if any.
pub open spec fn swimlanes_error(ls: Seq<YamlSwimlane>) -> Option<ErrorModel> {
    or_else(
        pairs_error(swimlane_pairs(ls), "swimlane ID"@, "swimlane name"@),
        empty_collection(swimlane_pairs(ls).len(), "swimlanes"@),
    )
}

/// The declared swimlane ids.
pub open spec fn swimlane_ids(ls: Seq<YamlSwimlane>) -> Seq<Seq<char>> {
    swimlane_pairs(ls).map_values(|p: (String, String)| p.0@)
}

/// The type of a field.
pub open spec fn field_type_text(f: YamlField) -> Seq<char> {
    match f {
        YamlField::Simple(t) => t@,
        YamlField::Complex { field_type, .. } => field_type@,
    }
}

/// The first problem with a list of field definitions.
pub open spec fn fields_error(fs: Seq<(String, YamlField)>) -> Option<ErrorModel>
    decreases fs.len(),
{
    if fs.len() == 0 {
        None
    } else {
        or_else(
            or_else(empty_field(fs[0].0@, "field name"@), empty_field(field_type_text(fs[0].1), "field type"@)),
            fields_error(fs.drop_first()),
        )
    }
}

/// The entries (entity name, field values) of a list of test steps.
pub open spec fn step_entries(steps: Seq<YamlTestStep>) -> Seq<(String, Vec<(String, String)>)>
    decreases steps.len(),
{
    if steps.len() == 0 {
        Seq::empty()
    } else {
        step_entries(steps.drop_last()) + steps.last().step@
    }
}

/// The first problem with test step entries, whose names are labelled
/// `name_label`.
pub open spec fn entries_error(es: Seq<(String, Vec<(String, String)>)>, name_label: Seq<char>) -> Option<ErrorModel>
    decreases es.len(),
{
    if es.len() == 0 {
        None
    } else {
        or_else(
            or_else(empty_field(es[0].0@, name_label), pairs_error(es[0].1@, "test field name"@, "placeholder value"@)),
            entries_error(es.drop_first(), name_label),
        )
    }
}

/// The problem with a test scenario, if any.
pub open spec fn scenario_error(s: (String, YamlTestScenario)) -> Option<ErrorModel> {
    let given = step_entries(s.1.given@);
    let when = step_entries(s.1.when@);
    let expected = step_entries(s.1.expected_steps());
    or_else(
        empty_field(s.0@, "test scenario name"@),
        or_else(
            entries_error(given, "test event name"@),
            or_else(
                entries_error(when, "test command name"@),
                or_else(
                    empty_collection(when.len(), "when actions"@),
                    or_else(
                        entries_error(expected, "test event name"@),
                        empty_collection(expected.len(), "then events"@),
                    ),
                ),
            ),
        ),
    )
}

/// The first problem with a list of test scenarios.
pub open spec fn scenarios_error(ss: Seq<(String, YamlTestScenario)>) -> Option<ErrorModel>
    decreases ss.len(),
{
    if ss.len() == 0 {
        None
    } else {
        or_else(scenario_error(ss[0]), scenarios_error(ss.drop_first()))
    }
}

/// The problem with an event definition, if any.
pub open spec fn event_error(e: (String, YamlEvent), ids: Seq<Seq<char>>) -> Option<ErrorModel> {
    or_else(
        unknown_swimlane(e.1.swimlane@, ids),
        or_else(
            empty_field(e.0@, "event name"@),
            or_else(
                empty_field(e.1.description@, "event description"@),
                or_else(empty_field(e.1.swimlane@, "swimlane ID"@), fields_error(e.1.data@)),
            ),
        ),
    )
}

/// The first problem with the event definitions.
pub open spec fn events_error(es: Seq<(String, YamlEvent)>, ids: Seq<Seq<char>>) -> Option<ErrorModel>
    decreases es.len(),
{
    if es.len() == 0 {
        None
    } else {
        or_else(event_error(es[0], ids), events_error(es.drop_first(), ids))
    }
}

/// The problem with a command definition, if any.
pub open spec fn command_error(c: (String, YamlCommand), ids: Seq<Seq<char>>) -> Option<ErrorModel> {
    or_else(
        unknown_swimlane(c.1.swimlane@, ids),
        or_else(
            empty_field(c.0@, "command name"@),
            or_else(
                empty_field(c.1.description@, "command description"@),
                or_else(
                    empty_field(c.1.swimlane@, "swimlane ID"@),
                    or_else(fields_error(c.1.data@), scenarios_error(c.1.tests@)),
                ),
            ),
        ),
    )
}

/// The first problem with the command definitions.
pub open spec fn commands_error(cs: Seq<(String, YamlCommand)>, ids: Seq<Seq<char>>) -> Option<ErrorModel>
    decreases cs.len(),
{
    if cs.len() == 0 {
        None
    } else {
        or_else(command_error(cs[0], ids), commands_error(cs.drop_first(), ids))
    }
}

/// A component of a view, one per name.
pub enum ComponentItem {
    /// A component of a simple named type.
    Plain(String, String),
    /// A component with a definition.
    Rich(String, YamlComplexComponent),
}

/// The components of one component entry.
pub open spec fn items_of(c: YamlComponent) -> Seq<ComponentItem> {
    match c {
        YamlComponent::Simple { component } => component@.map_values(
            |p: (String, String)| ComponentItem::Plain(p.0, p.1),
        ),
        YamlComponent::Complex { component } => component@.map_values(
            |p: (String, YamlComplexComponent)| ComponentItem::Rich(p.0, p.1),
        ),
    }
}

/// The components of a list of component entries.
pub open spec fn component_items(cs: Seq<YamlComponent>) -> Seq<ComponentItem>
    decreases cs.len(),
{
    if cs.len() == 0 {
        Seq::empty()
    } else {
        component_items(cs.drop_last()) + items_of(cs.last())
    }
}

/// Whether a component type names a form, whatever its case.
pub open spec fn is_form(t: Seq<char>) -> bool {
    unicode_lowercase(t) == "form"@
}

/// The problem with a component, if any.
pub open spec fn item_error(it: ComponentItem) -> Option<ErrorModel> {
    match it {
        ComponentItem::Plain(n, t) => or_else(empty_field(n@, "component name"@), empty_field(t@, "component type"@)),
        ComponentItem::Rich(n, c) => or_else(
            empty_field(n@, "component name"@),
            if is_form(c.component_type@) {
                or_else(
                    pairs_error(c.fields@, "form field name"@, "form field type"@),
                    or_else(texts_error(c.actions@, "action name"@), empty_collection(c.actions@.len(), "form actions"@)),
                )
            } else {
                empty_field(c.component_type@, "component type"@)
            },
        ),
    }
}

/// The first problem with a list of components.
pub open spec fn items_error(its: Seq<ComponentItem>) -> Option<ErrorModel>
    decreases its.len(),
{
    if its.len() == 0 {
        None
    } else {
        or_else(item_error(its[0]), items_error(its.drop_first()))
    }
}

/// The problem with a view definition, if any.
pub open spec fn view_error(v: (String, YamlView), ids: Seq<Seq<char>>) -> Option<ErrorModel> {
    let items = component_items(v.1.components@);
    or_else(
        unknown_swimlane(v.1.swimlane@, ids),
        or_else(
            empty_field(v.0@, "view name"@),
            or_else(
                items_error(items),
                or_else(
                    empty_collection(items.len(), "view components"@),
                    or_else(empty_field(v.1.description@, "view description"@), empty_field(v.1.swimlane@, "swimlane ID"@)),
                ),
            ),
        ),
    )
}

/// The first problem with the view definitions.
pub open spec fn views_error(vs: Seq<(String, YamlView)>, ids: Seq<Seq<char>>) -> Option<ErrorModel>
    decreases vs.len(),
{
    if vs.len() == 0 {
        None
    } else {
        or_else(view_error(vs[0], ids), views_error(vs.drop_first(), ids))
    }
}

/// The problem with a projection definition, if any.
pub open spec fn projection_error(p: (String, YamlProjection), ids: Seq<Seq<char>>) -> Option<ErrorModel> {
    or_else(
        unknown_swimlane(p.1.swimlane@, ids),
        or_else(
            empty_field(p.0@, "projection name"@),
            or_else(
                pairs_error(p.1.fields@, "projection field name"@, "projection field type"@),
                or_else(
                    empty_field(p.1.description@, "projection description"@),
                    empty_field(p.1.swimlane@, "swimlane ID"@),
                ),
            ),
        ),
    )
}

/// The first problem with the projection definitions.
pub open spec fn projections_error(ps: Seq<(String, YamlProjection)>, ids: Seq<Seq<char>>) -> Option<ErrorModel>
    decreases ps.len(),
{
    if ps.len() == 0 {
        None
    } else {
        or_else(projection_error(ps[0], ids), projections_error(ps.drop_first(), ids))
    }
}

/// The problem with an output case, if any.
pub open spec fn case_error(c: (String, YamlQueryVariant)) -> Option<ErrorModel> {
    or_else(
        empty_field(c.0@, "output case name"@),
        match c.1 {
            YamlQueryVariant::Simple(t) => empty_field(t@, "error type name"@),
            YamlQueryVariant::Complex(fs) => pairs_error(fs@, "output field name"@, "output field type"@),
        },
    )
}

/// The first problem with a query's output cases.
pub open spec fn cases_error(cs: Seq<(String, YamlQueryVariant)>) -> Option<ErrorModel>
    decreases cs.len(),
{
    if cs.len() == 0 {
        None
    } else {
        or_else(case_error(cs[0]), cases_error(cs.drop_first()))
    }
}

/// The problem with a query definition, if any.
pub open spec fn query_error(q: (String, YamlQuery), ids: Seq<Seq<char>>) -> Option<ErrorModel> {
    or_else(
        unknown_swimlane(q.1.swimlane@, ids),
        or_else(
            empty_field(q.0@, "query name"@),
            or_else(
                pairs_error(q.1.inputs@, "query input name"@, "query input type"@),
                or_else(cases_error(q.1.outputs.one_of@), empty_field(q.1.swimlane@, "swimlane ID"@)),
            ),
        ),
    )
}

/// The first problem with the query definitions.
pub open spec fn queries_error(qs: Seq<(String, YamlQuery)>, ids: Seq<Seq<char>>) -> Option<ErrorModel>
    decreases qs.len(),
{
    if qs.len() == 0 {
        None
    } else {
        or_else(query_error(qs[0], ids), queries_error(qs.drop_first(), ids))
    }
}

/// The problem with an automation definition, if any.
pub open spec fn automation_error(a: (String, YamlAutomation), ids: Seq<Seq<char>>) -> Option<ErrorModel> {
    or_else(
        unknown_swimlane(a.1.swimlane@, ids),
        or_else(empty_field(a.0@, "automation name"@), empty_field(a.1.swimlane@, "swimlane ID"@)),
    )
}

/// The first problem with the automation definitions.
pub open spec fn automations_error(az: Seq<(String, YamlAutomation)>, ids: Seq<Seq<char>>) -> Option<ErrorModel>
    decreases az.len(),
{
    if az.len() == 0 {
        None
    } else {
        or_else(automation_error(az[0], ids), automations_error(az.drop_first(), ids))
    }
}

/// There is an arrow `->` at position `i`.
pub open spec fn is_arrow_at(s: Seq<char>, i: int) -> bool {
    0 <= i && i + 1 < s.len() && s[i] == '-' && s[i + 1] == '>'
}

/// The position of the first arrow at or after `i`, or -1.
pub open spec fn arrow_from(s: Seq<char>, i: int) -> int
    decreases s.len() - i,
{
    if i < 0 || i + 1 >= s.len() {
        -1
    } else if is_arrow_at(s, i) {
        i
    } else {
        arrow_from(s, i + 1)
    }
}

/// The text holds exactly one arrow.
pub open spec fn single_arrow(s: Seq<char>) -> bool {
    arrow_from(s, 0) >= 0 && arrow_from(s, arrow_from(s, 0) + 2) == -1
}

/// The trimmed text before the arrow.
pub open spec fn from_part(s: Seq<char>) -> Seq<char> {
    unicode_trim(s.subrange(0, arrow_from(s, 0)))
}

/// The trimmed text after the arrow.
pub open spec fn to_part(s: Seq<char>) -> Seq<char> {
    unicode_trim(s.subrange(arrow_from(s, 0) + 2, s.len() as int))
}

/// The problem with a connection string, if any: it must hold exactly one
/// arrow, with a non-empty reference on each side.
pub open spec fn connection_error(s: Seq<char>) -> Option<ErrorModel> {
    if !single_arrow(s) {
        Some(ErrorModel::InvalidConnection("Expected 'from -> to' format, got: "@ + s))
    } else {
        or_else(empty_field(from_part(s), "entity reference"@), empty_field(to_part(s), "entity reference"@))
    }
}

/// The first problem with a slice's connections.
pub open spec fn connections_error(cs: Seq<Seq<char>>) -> Option<ErrorModel>
    decreases cs.len(),
{
    if cs.len() == 0 {
        None
    } else {
        or_else(connection_error(cs[0]), connections_error(cs.drop_first()))
    }
}

/// The problem with a slice, if any.
pub open spec fn slice_error(e: (Seq<char>, Seq<Seq<char>>)) -> Option<ErrorModel> {
    or_else(
        empty_field(e.0, "slice name"@),
        or_else(connections_error(e.1), empty_collection(e.1.len(), "slice connections"@)),
    )
}

/// The first problem with the slices.
pub open spec fn slices_error(es: Seq<(Seq<char>, Seq<Seq<char>>)>) -> Option<ErrorModel>
    decreases es.len(),
{
    if es.len() == 0 {
        None
    } else {
        or_else(slice_error(es[0]), slices_error(es.drop_first()))
    }
}

/// The problem with the version, if any.
pub open spec fn version_error(v: Option<String>) -> Option<ErrorModel> {
    match v {
        Some(s) => empty_field(s@, "version"@),
        None => None,
    }
}

/// The problem that converting `y` reports, if any.
pub open spec fn model_error(y: ParsedModel) -> Option<ErrorModel> {
    let ids = swimlane_ids(y.swimlanes@);
    or_else(
        swimlanes_error(y.swimlanes@),
        or_else(
            events_error(y.events@, ids),
            or_else(
                commands_error(y.commands@, ids),
                or_else(
                    views_error(y.views@, ids),
                    or_else(
                        projections_error(y.projections@, ids),
                        or_else(
                            queries_error(y.queries@, ids),
                            or_else(
                                automations_error(y.automations@, ids),
                                or_else(
                                    slices_error(slice_entries(y.slices)),
                                    or_else(version_error(y.version), empty_field(y.workflow@, "workflow"@)),
                                ),
                            ),
                        ),
                    ),
                ),
            ),
        ),
    )
}

// ---------------------------------------------------------------------------
// What the result holds
// ---------------------------------------------------------------------------

/// Text pairs carried over one for one.
pub open spec fn pairs_converted<K: View<V = Seq<char>>, V: View<V = Seq<char>>>(
    out: Seq<(K, V)>,
    inp: Seq<(String, String)>,
) -> bool {
    &&& out.len() == inp.len()
    &&& forall|k: int| 0 <= k < inp.len() ==> (#[trigger] out[k]).0@ == inp[k].0@ && out[k].1@ == inp[k].1@
}

/// Field definitions carried over: a simple field is neither a stream id
/// nor generated.
pub open spec fn fields_converted(out: Seq<(domain::FieldName, domain::FieldDefinition)>, inp: Seq<(String, YamlField)>) -> bool {
    &&& out.len() == inp.len()
    &&& forall|k: int| 0 <= k < inp.len() ==> {
        &&& (#[trigger] out[k]).0@ == inp[k].0@
        &&& out[k].1.field_type@ == field_type_text(inp[k].1)
        &&& match inp[k].1 {
            YamlField::Simple(_) => !out[k].1.stream_id && !out[k].1.generated,
            YamlField::Complex { stream_id, generated, .. } => out[k].1.stream_id == stream_id
                && out[k].1.generated == generated,
        }
    }
}

/// Test events, one per step entry.
pub open spec fn test_events_converted(out: Seq<domain::TestEvent>, inp: Seq<(String, Vec<(String, String)>)>) -> bool {
    &&& out.len() == inp.len()
    &&& forall|k: int| 0 <= k < inp.len() ==> (#[trigger] out[k]).name@ == inp[k].0@ && pairs_converted(
        out[k].fields@,
        inp[k].1@,
    )
}

/// Test actions, one per step entry.
pub open spec fn test_actions_converted(out: Seq<domain::TestAction>, inp: Seq<(String, Vec<(String, String)>)>) -> bool {
    &&& out.len() == inp.len()
    &&& forall|k: int| 0 <= k < inp.len() ==> (#[trigger] out[k]).name@ == inp[k].0@ && pairs_converted(
        out[k].fields@,
        inp[k].1@,
    )
}

/// A test scenario carried over.
pub open spec fn scenario_converted(out: (domain::TestScenarioName, domain::TestScenario), inp: (String, YamlTestScenario)) -> bool {
    &&& out.0@ == inp.0@
    &&& test_events_converted(out.1.given@, step_entries(inp.1.given@))
    &&& test_actions_converted(out.1.when@, step_entries(inp.1.when@))
    &&& test_events_converted(out.1.expected_events(), step_entries(inp.1.expected_steps()))
}

/// Test scenarios carried over.
pub open spec fn scenarios_converted(
    out: Seq<(domain::TestScenarioName, domain::TestScenario)>,
    inp: Seq<(String, YamlTestScenario)>,
) -> bool {
    &&& out.len() == inp.len()
    &&& forall|k: int| 0 <= k < inp.len() ==> scenario_converted(#[trigger] out[k], inp[k])
}

/// An event definition carried over.
pub open spec fn event_converted(out: (domain::EventName, domain::EventDefinition), inp: (String, YamlEvent)) -> bool {
    &&& out.0@ == inp.0@
    &&& out.1.description@ == inp.1.description@
    &&& out.1.swimlane@ == inp.1.swimlane@
    &&& fields_converted(out.1.data@, inp.1.data@)
}

/// A command definition carried over.
pub open spec fn command_converted(out: (domain::CommandName, domain::CommandDefinition), inp: (String, YamlCommand)) -> bool {
    &&& out.0@ == inp.0@
    &&& out.1.description@ == inp.1.description@
    &&& out.1.swimlane@ == inp.1.swimlane@
    &&& fields_converted(out.1.data@, inp.1.data@)
    &&& scenarios_converted(out.1.tests@, inp.1.tests@)
}

/// A component carried over: a form when its type says so, else a simple
/// component of its type.
pub open spec fn item_converted(out: domain::Component, it: ComponentItem) -> bool {
    match it {
        ComponentItem::Plain(n, t) => out.component_type matches domain::ComponentType::Simple(st) && st@ == t@
            && out.name@ == n@,
        ComponentItem::Rich(n, c) => out.name@ == n@ && if is_form(c.component_type@) {
            out.component_type matches domain::ComponentType::Form { fields, actions } && pairs_converted(
                fields@,
                c.fields@,
            ) && action_names(actions@) == texts(c.actions@)
        } else {
            out.component_type matches domain::ComponentType::Simple(st) && st@ == c.component_type@
        },
    }
}

/// The names of form actions.
pub open spec fn action_names(v: Seq<domain::ActionName>) -> Seq<Seq<char>> {
    v.map_values(|a: domain::ActionName| a@)
}

/// Components carried over.
pub open spec fn items_converted(out: Seq<domain::Component>, its: Seq<ComponentItem>) -> bool {
    &&& out.len() == its.len()
    &&& forall|k: int| 0 <= k < its.len() ==> item_converted(#[trigger] out[k], its[k])
}

/// A view definition carried over.
pub open spec fn view_converted(out: (domain::ViewName, domain::ViewDefinition), inp: (String, YamlView)) -> bool {
    &&& out.0@ == inp.0@
    &&& out.1.description@ == inp.1.description@
    &&& out.1.swimlane@ == inp.1.swimlane@
    &&& items_converted(out.1.components@, component_items(inp.1.components@))
}

/// A projection definition carried over.
pub open spec fn projection_converted(
    out: (domain::ProjectionName, domain::ProjectionDefinition),
    inp: (String, YamlProjection),
) -> bool {
    &&& out.0@ == inp.0@
    &&& out.1.description@ == inp.1.description@
    &&& out.1.swimlane@ == inp.1.swimlane@
    &&& pairs_converted(out.1.fields@, inp.1.fields@)
}

/// An output case carried over.
pub open spec fn case_converted(out: (domain::OutputCaseName, domain::OutputCase), inp: (String, YamlQueryVariant)) -> bool {
    &&& out.0@ == inp.0@
    &&& match inp.1 {
        YamlQueryVariant::Simple(t) => out.1 matches domain::OutputCase::Error(e) && e@ == t@,
        YamlQueryVariant::Complex(fs) => out.1 matches domain::OutputCase::Fields(f) && pairs_converted(f@, fs@),
    }
}

/// A query's outputs carried over: a single case with fields becomes
/// those fields; otherwise the cases are kept.
pub open spec fn output_converted(out: domain::OutputSpec, inp: Seq<(String, YamlQueryVariant)>) -> bool {
    if inp.len() == 1 && inp[0].1 is Complex {
        out matches domain::OutputSpec::Single(f) && pairs_converted(f@, inp[0].1->Complex_0@)
    } else {
        out matches domain::OutputSpec::OneOf(cases) && cases@.len() == inp.len() && forall|k: int|
            0 <= k < inp.len() ==> case_converted(#[trigger] cases@[k], inp[k])
    }
}

/// A query definition carried over.
pub open spec fn query_converted(out: (domain::QueryName, domain::QueryDefinition), inp: (String, YamlQuery)) -> bool {
    &&& out.0@ == inp.0@
    &&& out.1.swimlane@ == inp.1.swimlane@
    &&& pairs_converted(out.1.inputs@, inp.1.inputs@)
    &&& output_converted(out.1.outputs, inp.1.outputs.one_of@)
}

/// An automation definition carried over.
pub open spec fn automation_converted(
    out: (domain::AutomationName, domain::AutomationDefinition),
    inp: (String, YamlAutomation),
) -> bool {
    &&& out.0@ == inp.0@
    &&& out.1.swimlane@ == inp.1.swimlane@
}

/// Whether `s` ends with `t`.
pub open spec fn ends_with(s: Seq<char>, t: Seq<char>) -> bool {
    s.len() >= t.len() && s.subrange(s.len() - t.len(), s.len() as int) == t
}

/// Whether `s` starts with `t`.
pub open spec fn starts_with(s: Seq<char>, t: Seq<char>) -> bool {
    s.len() >= t.len() && s.subrange(0, t.len() as int) == t
}

/// Whether `t` occurs in `s`.
pub open spec fn contains_text(s: Seq<char>, t: Seq<char>) -> bool {
    exists|i: int| 0 <= i && i + t.len() <= s.len() && #[trigger] s.subrange(i, i + t.len()) == t
}

/// The kind of entity a reference is taken to name.
pub enum ReferenceKind {
    Event,
    Command,
    View,
    Projection,
    Query,
    Automation,
}

/// The kind a non-empty reference is taken to name: a path with a dot is
/// a view; otherwise the lowercase text decides by its ending or start,
/// and a command is the default.
pub open spec fn reference_kind(r: Seq<char>) -> ReferenceKind {
    let lower = unicode_lowercase(r);
    if r.contains('.') {
        ReferenceKind::View
    } else if ends_with(lower, "event"@) || ends_with(lower, "ed"@) || ends_with(lower, "sent"@) {
        ReferenceKind::Event
    } else if ends_with(lower, "command"@) || starts_with(lower, "create"@) || starts_with(lower, "update"@)
        || starts_with(lower, "delete"@) {
        ReferenceKind::Command
    } else if ends_with(lower, "projection"@) {
        ReferenceKind::Projection
    } else if ends_with(lower, "screen"@) || ends_with(lower, "view"@) || ends_with(lower, "page"@) {
        ReferenceKind::View
    } else if ends_with(lower, "query"@) || starts_with(lower, "get"@) || starts_with(lower, "find"@) {
        ReferenceKind::Query
    } else if ends_with(lower, "automation"@) || contains_text(lower, "process"@) {
        ReferenceKind::Automation
    } else {
        ReferenceKind::Command
    }
}

/// `out` names the entity that the text `r` refers to.
pub open spec fn reference_converted(out: domain::EntityReference, r: Seq<char>) -> bool {
    match reference_kind(r) {
        ReferenceKind::Event => out matches domain::EntityReference::Event(n) && n@ == r,
        ReferenceKind::Command => out matches domain::EntityReference::Command(n) && n@ == r,
        ReferenceKind::View => out matches domain::EntityReference::View(n) && n@ == r,
        ReferenceKind::Projection => out matches domain::EntityReference::Projection(n) && n@ == r,
        ReferenceKind::Query => out matches domain::EntityReference::Query(n) && n@ == r,
        ReferenceKind::Automation => out matches domain::EntityReference::Automation(n) && n@ == r,
    }
}

/// How a reference's text decides what it names. The result always
/// carries the text as its name; a text with a `.` is a view path; and a
/// text without one whose lowercase form ends in `event`, `ed` or `sent`
/// (a past tense) names an event, whatever else it starts or ends with.
pub proof fn lemma_reference_reading(out: domain::EntityReference, r: Seq<char>)
    requires
        reference_converted(out, r),
    ensures
        r.contains('.') ==> (out matches domain::EntityReference::View(p) && p@ == r),
        ({
            let l = unicode_lowercase(r);
            &&& !r.contains('.')
            &&& ((l.len() >= 2 && l[l.len() - 2] == 'e' && l[l.len() - 1] == 'd') || (l.len() >= 5 && l.subrange(
                l.len() - 5,
                l.len() as int,
            ) == seq!['e', 'v', 'e', 'n', 't']) || (l.len() >= 4 && l.subrange(l.len() - 4, l.len() as int) == seq![
                's',
                'e',
                'n',
                't',
            ]))
        }) ==> (out matches domain::EntityReference::Event(n) && n@ == r),
        match out {
            domain::EntityReference::Event(n) => n@ == r,
            domain::EntityReference::Command(n) => n@ == r,
            domain::EntityReference::View(n) => n@ == r,
            domain::EntityReference::Projection(n) => n@ == r,
            domain::EntityReference::Query(n) => n@ == r,
            domain::EntityReference::Automation(n) => n@ == r,
        },
{
    let l = unicode_lowercase(r);
    reveal_strlit("ed");
    reveal_strlit("event");
    reveal_strlit("sent");
    if l.len() >= 2 && l[l.len() - 2] == 'e' && l[l.len() - 1] == 'd' {
        assert(l.subrange(l.len() - 2, l.len() as int) =~= "ed"@);
    }
    if l.len() >= 5 && l.subrange(l.len() - 5, l.len() as int) == seq!['e', 'v', 'e', 'n', 't'] {
        assert(l.subrange(l.len() - 5, l.len() as int) =~= "event"@);
    }
    if l.len() >= 4 && l.subrange(l.len() - 4, l.len() as int) == seq!['s', 'e', 'n', 't'] {
        assert(l.subrange(l.len() - 4, l.len() as int) =~= "sent"@);
    }
}

/// How a reference without a dot is guessed from its name, in order: an
/// event ending (`event`, `ed`, `sent`) wins; then a command ending or
/// start (`command`; `create`, `update`, `delete`); then a projection
/// ending; then a view ending (`screen`, `view`, `page`); then a query
/// ending or start (`query`; `get`, `find`); then an automation ending or
/// `process` anywhere; and a name that fits none of these is a command.
/// The lowercase form of the name is what is matched.
pub proof fn lemma_reference_guesses(out: domain::EntityReference, r: Seq<char>)
    requires
        reference_converted(out, r),
    ensures
        ({
            let l = unicode_lowercase(r);
            let event_like = ends_with(l, seq!['e', 'v', 'e', 'n', 't']) || ends_with(l, seq!['e', 'd']) || ends_with(l, seq!['s', 'e', 'n', 't']);
            let command_like = ends_with(l, seq!['c', 'o', 'm', 'm', 'a', 'n', 'd']) || starts_with(l, seq!['c', 'r', 'e', 'a', 't', 'e']) || starts_with(l, seq!['u', 'p', 'd', 'a', 't', 'e'])
                || starts_with(l, seq!['d', 'e', 'l', 'e', 't', 'e']);
            let projection_like = ends_with(l, seq!['p', 'r', 'o', 'j', 'e', 'c', 't', 'i', 'o', 'n']);
            let view_like = ends_with(l, seq!['s', 'c', 'r', 'e', 'e', 'n']) || ends_with(l, seq!['v', 'i', 'e', 'w']) || ends_with(l, seq!['p', 'a', 'g', 'e']);
            let query_like = ends_with(l, seq!['q', 'u', 'e', 'r', 'y']) || starts_with(l, seq!['g', 'e', 't']) || starts_with(l, seq!['f', 'i', 'n', 'd']);
            let automation_like = ends_with(l, seq!['a', 'u', 't', 'o', 'm', 'a', 't', 'i', 'o', 'n']) || contains_text(l, seq!['p', 'r', 'o', 'c', 'e', 's', 's']);
            &&& (!r.contains('.') && !event_like && command_like) ==> out is Command
            &&& (!r.contains('.') && !event_like && !command_like && projection_like) ==> out is Projection
            &&& (!r.contains('.') && !event_like && !command_like && !projection_like && view_like) ==> out is View
            &&& (!r.contains('.') && !event_like && !command_like && !projection_like && !view_like && query_like)
                ==> out is Query
            &&& (!r.contains('.') && !event_like && !command_like && !projection_like && !view_like && !query_like
                && automation_like) ==> out is Automation
            &&& (!r.contains('.') && !event_like && !command_like && !projection_like && !view_like && !query_like
                && !automation_like) ==> out is Command
        }),
{
    reveal_strlit("event");
    assert("event"@ =~= seq!['e', 'v', 'e', 'n', 't']);
    reveal_strlit("ed");
    assert("ed"@ =~= seq!['e', 'd']);
    reveal_strlit("sent");
    assert("sent"@ =~= seq!['s', 'e', 'n', 't']);
    reveal_strlit("command");
    assert("command"@ =~= seq!['c', 'o', 'm', 'm', 'a', 'n', 'd']);
    reveal_strlit("create");
    assert("create"@ =~= seq!['c', 'r', 'e', 'a', 't', 'e']);
    reveal_strlit("update");
    assert("update"@ =~= seq!['u', 'p', 'd', 'a', 't', 'e']);
    reveal_strlit("delete");
    assert("delete"@ =~= seq!['d', 'e', 'l', 'e', 't', 'e']);
    reveal_strlit("projection");
    assert("projection"@ =~= seq!['p', 'r', 'o', 'j', 'e', 'c', 't', 'i', 'o', 'n']);
    reveal_strlit("screen");
    assert("screen"@ =~= seq!['s', 'c', 'r', 'e', 'e', 'n']);
    reveal_strlit("view");
    assert("view"@ =~= seq!['v', 'i', 'e', 'w']);
    reveal_strlit("page");
    assert("page"@ =~= seq!['p', 'a', 'g', 'e']);
    reveal_strlit("query");
    assert("query"@ =~= seq!['q', 'u', 'e', 'r', 'y']);
    reveal_strlit("get");
    assert("get"@ =~= seq!['g', 'e', 't']);
    reveal_strlit("find");
    assert("find"@ =~= seq!['f', 'i', 'n', 'd']);
    reveal_strlit("automation");
    assert("automation"@ =~= seq!['a', 'u', 't', 'o', 'm', 'a', 't', 'i', 'o', 'n']);
    reveal_strlit("process");
    assert("process"@ =~= seq!['p', 'r', 'o', 'c', 'e', 's', 's']);
}

/// A connection read from its text.
pub open spec fn connection_converted(out: domain::Connection, s: Seq<char>) -> bool {
    reference_converted(out.from, from_part(s)) && reference_converted(out.to, to_part(s))
}

/// A slice carried over.
pub open spec fn slice_converted(
    out: (domain::SliceName, NonEmpty<domain::Connection>),
    inp: (Seq<char>, Seq<Seq<char>>),
) -> bool {
    &&& out.0@ == inp.0
    &&& out.1@.len() == inp.1.len()
    &&& forall|k: int| 0 <= k < inp.1.len() ==> connection_converted(#[trigger] out.1@[k], inp.1[k])
}

/// `d` is the domain model of `y`.
pub open spec fn model_converted(d: domain::YamlEventModel, y: ParsedModel) -> bool {
    &&& (d.version matches Some(v) ==> y.version matches Some(s) && v@ == s@)
    &&& (y.version is Some ==> d.version is Some)
    &&& d.workflow@ == y.workflow@
    &&& d.swimlanes@.len() == swimlane_pairs(y.swimlanes@).len()
    &&& forall|k: int| 0 <= k < d.swimlanes@.len() ==> (#[trigger] d.swimlanes@[k]).id@ == swimlane_pairs(
        y.swimlanes@,
    )[k].0@ && d.swimlanes@[k].name@ == swimlane_pairs(y.swimlanes@)[k].1@
    &&& d.events@.len() == y.events@.len()
    &&& forall|k: int| 0 <= k < y.events@.len() ==> event_converted(#[trigger] d.events@[k], y.events@[k])
    &&& d.commands@.len() == y.commands@.len()
    &&& forall|k: int| 0 <= k < y.commands@.len() ==> command_converted(#[trigger] d.commands@[k], y.commands@[k])
    &&& d.views@.len() == y.views@.len()
    &&& forall|k: int| 0 <= k < y.views@.len() ==> view_converted(#[trigger] d.views@[k], y.views@[k])
    &&& d.projections@.len() == y.projections@.len()
    &&& forall|k: int| 0 <= k < y.projections@.len() ==> projection_converted(
        #[trigger] d.projections@[k],
        y.projections@[k],
    )
    &&& d.queries@.len() == y.queries@.len()
    &&& forall|k: int| 0 <= k < y.queries@.len() ==> query_converted(#[trigger] d.queries@[k], y.queries@[k])
    &&& d.automations@.len() == y.automations@.len()
    &&& forall|k: int| 0 <= k < y.automations@.len() ==> automation_converted(
        #[trigger] d.automations@[k],
        y.automations@[k],
    )
    &&& d.slices@.len() == slice_entries(y.slices).len()
    &&& forall|k: int| 0 <= k < d.slices@.len() ==> slice_converted(#[trigger] d.slices@[k], slice_entries(y.slices)[k])
}


/// Whether no two entries of `s` have the same name, as in a map.
pub open spec fn distinct_keys<K: View<V = Seq<char>>, T>(s: Seq<(K, T)>) -> bool {
    forall|i: int, j: int| 0 <= i < j < s.len() ==> (#[trigger] s[i]).0@ != (#[trigger] s[j]).0@
}

/// Whether each section of a read model names each entity once.
pub open spec fn parsed_names_distinct(y: ParsedModel) -> bool {
    &&& distinct_keys(y.events@)
    &&& distinct_keys(y.commands@)
    &&& distinct_keys(y.views@)
    &&& distinct_keys(y.projections@)
    &&& distinct_keys(y.queries@)
    &&& distinct_keys(y.automations@)
}

/// Whether each section of a converted model names each entity once.
pub open spec fn domain_names_distinct(d: domain::YamlEventModel) -> bool {
    &&& distinct_keys(d.events@)
    &&& distinct_keys(d.commands@)
    &&& distinct_keys(d.views@)
    &&& distinct_keys(d.projections@)
    &&& distinct_keys(d.queries@)
    &&& distinct_keys(d.automations@)
}

/// Conversion keeps names apart: when each section of the read model names
/// each entity once, as the file's maps do, so does the converted model.
pub proof fn lemma_converted_names_distinct(d: domain::YamlEventModel, y: ParsedModel)
    requires
        model_converted(d, y),
        parsed_names_distinct(y),
    ensures
        domain_names_distinct(d),
{
    assert forall|i: int, j: int| 0 <= i < j < d.events@.len() implies (#[trigger] d.events@[i]).0@ != (#[trigger] d.events@[j]).0@ by {
        assert(event_converted(d.events@[i], y.events@[i]) && event_converted(d.events@[j], y.events@[j]));
        assert(y.events@[i].0@ != y.events@[j].0@);
    }
    assert forall|i: int, j: int| 0 <= i < j < d.commands@.len() implies (#[trigger] d.commands@[i]).0@ != (#[trigger] d.commands@[j]).0@ by {
        assert(command_converted(d.commands@[i], y.commands@[i]) && command_converted(d.commands@[j], y.commands@[j]));
        assert(y.commands@[i].0@ != y.commands@[j].0@);
    }
    assert forall|i: int, j: int| 0 <= i < j < d.views@.len() implies (#[trigger] d.views@[i]).0@ != (#[trigger] d.views@[j]).0@ by {
        assert(view_converted(d.views@[i], y.views@[i]) && view_converted(d.views@[j], y.views@[j]));
        assert(y.views@[i].0@ != y.views@[j].0@);
    }
    assert forall|i: int, j: int| 0 <= i < j < d.projections@.len() implies (#[trigger] d.projections@[i]).0@ != (#[trigger] d.projections@[j]).0@ by {
        assert(projection_converted(d.projections@[i], y.projections@[i]) && projection_converted(d.projections@[j], y.projections@[j]));
        assert(y.projections@[i].0@ != y.projections@[j].0@);
    }
    assert forall|i: int, j: int| 0 <= i < j < d.queries@.len() implies (#[trigger] d.queries@[i]).0@ != (#[trigger] d.queries@[j]).0@ by {
        assert(query_converted(d.queries@[i], y.queries@[i]) && query_converted(d.queries@[j], y.queries@[j]));
        assert(y.queries@[i].0@ != y.queries@[j].0@);
    }
    assert forall|i: int, j: int| 0 <= i < j < d.automations@.len() implies (#[trigger] d.automations@[i]).0@ != (#[trigger] d.automations@[j]).0@ by {
        assert(automation_converted(d.automations@[i], y.automations@[i]) && automation_converted(d.automations@[j], y.automations@[j]));
        assert(y.automations@[i].0@ != y.automations@[j].0@);
    }
}

// ---------------------------------------------------------------------------
// The conversion
// ---------------------------------------------------------------------------

/// A non-empty text, or the error for an empty field.
fn non_empty(s: String, label: &str) -> (r: Result<NonEmptyString, ConversionError>)
    ensures
        match empty_field(s@, label@) {
            Some(e) => r matches Err(x) && x@ == e,
            None => r matches Ok(v) && v@ == s@,
        },
{
    match NonEmptyString::parse(s) {
        Ok(v) => Ok(v),
        Err(_) => Err(ConversionError::EmptyField(label.to_owned())),
    }
}

/// A list as a `NonEmpty`, or the error for an empty collection.
fn vec_to_non_empty<T>(vec: Vec<T>, name: &str) -> (r: Result<NonEmpty<T>, ConversionError>)
    ensures
        match empty_collection(vec@.len(), name@) {
            Some(e) => r matches Err(x) && x@ == e,
            None => r matches Ok(v) && v@ == vec@,
        },
{
    if vec.len() == 0 {
        return Err(ConversionError::EmptyCollection(name.to_owned()));
    }
    let mut vec = vec;
    let ghost all = vec@;
    let head = vec.remove(0);
    let r = NonEmpty::from_head_and_tail(head, vec);
    assert(r@ =~= all);
    Ok(r)
}

/// Names and types of fields.
fn convert_type_pairs(ps: &Vec<(String, String)>, key_label: &str, value_label: &str) -> (r: Result<
    Vec<(domain::FieldName, domain::FieldType)>,
    ConversionError,
>)
    ensures
        match pairs_error(ps@, key_label@, value_label@) {
            Some(e) => r matches Err(x) && x@ == e,
            None => r matches Ok(v) && pairs_converted(v@, ps@),
        },
{
    let mut out: Vec<(domain::FieldName, domain::FieldType)> = Vec::new();
    let n = ps.len();
    assert(ps@.skip(0) =~= ps@);
    for i in 0..n
        invariant
            n == ps@.len(),
            pairs_error(ps@, key_label@, value_label@) == pairs_error(ps@.skip(i as int), key_label@, value_label@),
            out@.len() == i,
            forall|k: int| 0 <= k < i ==> (#[trigger] out@[k]).0@ == ps@[k].0@ && out@[k].1@ == ps@[k].1@,
    {
        let ghost rest = ps@.skip(i as int);
        assert(rest[0] == ps@[i as int]);
        assert(rest.drop_first() =~= ps@.skip(i + 1));
        let (k, v) = &ps[i];
        let key = match non_empty(k.clone(), key_label) {
            Ok(x) => x,
            Err(e) => return Err(e),
        };
        let value = match non_empty(v.clone(), value_label) {
            Ok(x) => x,
            Err(e) => return Err(e),
        };
        out.push((domain::FieldName::new(key), domain::FieldType::new(value)));
    }
    assert(ps@.skip(n as int) =~= Seq::<(String, String)>::empty());
    Ok(out)
}

/// Names and types of form fields.
fn convert_form_pairs(ps: &Vec<(String, String)>, key_label: &str, value_label: &str) -> (r: Result<
    Vec<(domain::FieldName, domain::SimpleComponentType)>,
    ConversionError,
>)
    ensures
        match pairs_error(ps@, key_label@, value_label@) {
            Some(e) => r matches Err(x) && x@ == e,
            None => r matches Ok(v) && pairs_converted(v@, ps@),
        },
{
    let mut out: Vec<(domain::FieldName, domain::SimpleComponentType)> = Vec::new();
    let n = ps.len();
    assert(ps@.skip(0) =~= ps@);
    for i in 0..n
        invariant
            n == ps@.len(),
            pairs_error(ps@, key_label@, value_label@) == pairs_error(ps@.skip(i as int), key_label@, value_label@),
            out@.len() == i,
            forall|k: int| 0 <= k < i ==> (#[trigger] out@[k]).0@ == ps@[k].0@ && out@[k].1@ == ps@[k].1@,
    {
        let ghost rest = ps@.skip(i as int);
        assert(rest[0] == ps@[i as int]);
        assert(rest.drop_first() =~= ps@.skip(i + 1));
        let (k, v) = &ps[i];
        let key = match non_empty(k.clone(), key_label) {
            Ok(x) => x,
            Err(e) => return Err(e),
        };
        let value = match non_empty(v.clone(), value_label) {
            Ok(x) => x,
            Err(e) => return Err(e),
        };
        out.push((domain::FieldName::new(key), domain::SimpleComponentType::new(value)));
    }
    assert(ps@.skip(n as int) =~= Seq::<(String, String)>::empty());
    Ok(out)
}

/// Names and placeholder values of test fields.
fn convert_placeholder_pairs(ps: &Vec<(String, String)>) -> (r: Result<
    Vec<(domain::FieldName, domain::PlaceholderValue)>,
    ConversionError,
>)
    ensures
        match pairs_error(ps@, "test field name"@, "placeholder value"@) {
            Some(e) => r matches Err(x) && x@ == e,
            None => r matches Ok(v) && pairs_converted(v@, ps@),
        },
{
    let mut out: Vec<(domain::FieldName, domain::PlaceholderValue)> = Vec::new();
    let n = ps.len();
    assert(ps@.skip(0) =~= ps@);
    for i in 0..n
        invariant
            n == ps@.len(),
            pairs_error(ps@, "test field name"@, "placeholder value"@) == pairs_error(
                ps@.skip(i as int),
                "test field name"@,
                "placeholder value"@,
            ),
            out@.len() == i,
            forall|k: int| 0 <= k < i ==> (#[trigger] out@[k]).0@ == ps@[k].0@ && out@[k].1@ == ps@[k].1@,
    {
        let ghost rest = ps@.skip(i as int);
        assert(rest[0] == ps@[i as int]);
        assert(rest.drop_first() =~= ps@.skip(i + 1));
        let (k, v) = &ps[i];
        let key = match non_empty(k.clone(), "test field name") {
            Ok(x) => x,
            Err(e) => return Err(e),
        };
        let value = match non_empty(v.clone(), "placeholder value") {
            Ok(x) => x,
            Err(e) => return Err(e),
        };
        out.push((domain::FieldName::new(key), domain::PlaceholderValue::new(value)));
    }
    assert(ps@.skip(n as int) =~= Seq::<(String, String)>::empty());
    Ok(out)
}

/// Converts field definitions: each needs a name and a type.
fn convert_field_definitions(fields: &Vec<(String, YamlField)>) -> (r: Result<
    Vec<(domain::FieldName, domain::FieldDefinition)>,
    ConversionError,
>)
    ensures
        match fields_error(fields@) {
            Some(e) => r matches Err(x) && x@ == e,
            None => r matches Ok(v) && fields_converted(v@, fields@),
        },
{
    let mut out: Vec<(domain::FieldName, domain::FieldDefinition)> = Vec::new();
    let n = fields.len();
    assert(fields@.skip(0) =~= fields@);
    for i in 0..n
        invariant
            n == fields@.len(),
            fields_error(fields@) == fields_error(fields@.skip(i as int)),
            out@.len() == i,
            forall|k: int| 0 <= k < i ==> {
                &&& (#[trigger] out@[k]).0@ == fields@[k].0@
                &&& out@[k].1.field_type@ == field_type_text(fields@[k].1)
                &&& match fields@[k].1 {
                    YamlField::Simple(_) => !out@[k].1.stream_id && !out@[k].1.generated,
                    YamlField::Complex { stream_id, generated, .. } => out@[k].1.stream_id == stream_id
                        && out@[k].1.generated == generated,
                }
            },
    {
        let ghost rest = fields@.skip(i as int);
        assert(rest[0] == fields@[i as int]);
        assert(rest.drop_first() =~= fields@.skip(i + 1));
        let (name, field) = &fields[i];
        let name = match non_empty(name.clone(), "field name") {
            Ok(x) => x,
            Err(e) => return Err(e),
        };
        let definition = match field {
            YamlField::Simple(type_str) => {
                let t = match non_empty(type_str.clone(), "field type") {
                    Ok(x) => x,
                    Err(e) => return Err(e),
                };
                domain::FieldDefinition { field_type: domain::FieldType::new(t), stream_id: false, generated: false }
            },
            YamlField::Complex { field_type, stream_id, generated } => {
                let t = match non_empty(field_type.clone(), "field type") {
                    Ok(x) => x,
                    Err(e) => return Err(e),
                };
                domain::FieldDefinition {
                    field_type: domain::FieldType::new(t),
                    stream_id: *stream_id,
                    generated: *generated,
                }
            },
        };
        out.push((domain::FieldName::new(name), definition));
    }
    assert(fields@.skip(n as int) =~= Seq::<(String, YamlField)>::empty());
    Ok(out)
}

proof fn lemma_swimlane_pairs_step(ls: Seq<YamlSwimlane>, i: int)
    requires
        0 <= i < ls.len(),
    ensures
        swimlane_pairs(ls.take(i + 1)) == swimlane_pairs(ls.take(i)) + match ls[i] {
            YamlSwimlane::Simple(n) => seq![(n, n)],
            YamlSwimlane::Mapped(m) => m@,
        },
{
    assert(ls.take(i + 1).drop_last() =~= ls.take(i));
}

/// The swimlanes as (id, name) pairs.
fn swimlane_pair_list(ls: &Vec<YamlSwimlane>) -> (r: Vec<(String, String)>)
    ensures
        r@ == swimlane_pairs(ls@),
{
    let mut r: Vec<(String, String)> = Vec::new();
    let n = ls.len();
    assert(ls@.take(0) =~= Seq::<YamlSwimlane>::empty());
    for i in 0..n
        invariant
            n == ls@.len(),
            r@ == swimlane_pairs(ls@.take(i as int)),
    {
        proof {
            lemma_swimlane_pairs_step(ls@, i as int);
        }
        match &ls[i] {
            YamlSwimlane::Simple(name) => {
                r.push((name.clone(), name.clone()));
                assert(r@ =~= swimlane_pairs(ls@.take(i + 1)));
            },
            YamlSwimlane::Mapped(m) => {
                let ghost before = r@;
                let k = m.len();
                for j in 0..k
                    invariant
                        k == m@.len(),
                        r@ == before + m@.take(j as int),
                {
                    let (id, name) = &m[j];
                    r.push((id.clone(), name.clone()));
                    assert(m@.take(j + 1) =~= m@.take(j as int).push(m@[j as int]));
                    assert(r@ =~= before + m@.take(j + 1));
                }
                assert(m@.take(k as int) =~= m@);
            },
        }
    }
    assert(ls@.take(n as int) =~= ls@);
    r
}

/// Converts the swimlanes: each needs an id and a name, and there must be
/// at least one.
fn convert_swimlanes(swimlanes: &Vec<YamlSwimlane>) -> (r: Result<NonEmpty<domain::Swimlane>, ConversionError>)
    ensures
        match swimlanes_error(swimlanes@) {
            Some(e) => r matches Err(x) && x@ == e,
            None => r matches Ok(v) && v@.len() == swimlane_pairs(swimlanes@).len() && forall|k: int|
                0 <= k < v@.len() ==> (#[trigger] v@[k]).id@ == swimlane_pairs(swimlanes@)[k].0@ && v@[k].name@
                    == swimlane_pairs(swimlanes@)[k].1@,
        },
{
    let pairs = swimlane_pair_list(swimlanes);
    let mut result: Vec<domain::Swimlane> = Vec::new();
    let n = pairs.len();
    assert(pairs@.skip(0) =~= pairs@);
    for i in 0..n
        invariant
            n == pairs@.len(),
            pairs@ == swimlane_pairs(swimlanes@),
            pairs_error(pairs@, "swimlane ID"@, "swimlane name"@) == pairs_error(
                pairs@.skip(i as int),
                "swimlane ID"@,
                "swimlane name"@,
            ),
            result@.len() == i,
            forall|k: int| 0 <= k < i ==> (#[trigger] result@[k]).id@ == pairs@[k].0@ && result@[k].name@
                == pairs@[k].1@,
    {
        let ghost rest = pairs@.skip(i as int);
        assert(rest[0] == pairs@[i as int]);
        assert(rest.drop_first() =~= pairs@.skip(i + 1));
        let (id, name) = &pairs[i];
        let id = match non_empty(id.clone(), "swimlane ID") {
            Ok(x) => x,
            Err(e) => return Err(e),
        };
        let name = match non_empty(name.clone(), "swimlane name") {
            Ok(x) => x,
            Err(e) => return Err(e),
        };
        result.push(domain::Swimlane { id: domain::SwimlaneId::new(id), name: domain::SwimlaneName::new(name) });
    }
    assert(pairs@.skip(n as int) =~= Seq::<(String, String)>::empty());
    vec_to_non_empty(result, "swimlanes")
}


/// Whether `s` is among `ids`.
fn is_among(ids: &Vec<String>, s: &str) -> (r: bool)
    ensures
        r == texts(ids@).contains(s@),
{
    let n = ids.len();
    for i in 0..n
        invariant
            n == ids@.len(),
            forall|j: int| 0 <= j < i ==> ids@[j]@ != s@,
    {
        if crate::infrastructure::text::str_equal(ids[i].as_str(), s) {
            assert(texts(ids@)[i as int] == s@);
            return true;
        }
    }
    assert(!texts(ids@).contains(s@)) by {
        if texts(ids@).contains(s@) {
            let j = choose|j: int| 0 <= j < texts(ids@).len() && texts(ids@)[j] == s@;
            assert(ids@[j]@ == s@);
        }
    }
    false
}

/// The error for an unknown swimlane, if `s` is not declared.
fn check_swimlane(ids: &Vec<String>, s: &String) -> (r: Result<(), ConversionError>)
    ensures
        match unknown_swimlane(s@, texts(ids@)) {
            Some(e) => r matches Err(x) && x@ == e,
            None => r is Ok,
        },
{
    if is_among(ids, s.as_str()) {
        Ok(())
    } else {
        Err(ConversionError::UnknownSwimlane(s.clone()))
    }
}

/// The values of a list of references.
pub open spec fn values_of<T>(v: Seq<&T>) -> Seq<T> {
    v.map_values(|x: &T| *x)
}

proof fn lemma_step_entries_step(steps: Seq<YamlTestStep>, i: int)
    requires
        0 <= i < steps.len(),
    ensures
        step_entries(steps.take(i + 1)) == step_entries(steps.take(i)) + steps[i].step@,
{
    assert(steps.take(i + 1).drop_last() =~= steps.take(i));
}

/// References to the entries of a list of test steps.
fn step_entry_refs(steps: &Vec<YamlTestStep>) -> (r: Vec<&(String, Vec<(String, String)>)>)
    ensures
        values_of(r@) == step_entries(steps@),
{
    let mut r: Vec<&(String, Vec<(String, String)>)> = Vec::new();
    let n = steps.len();
    assert(steps@.take(0) =~= Seq::<YamlTestStep>::empty());
    assert(values_of(r@) =~= Seq::<(String, Vec<(String, String)>)>::empty());
    for i in 0..n
        invariant
            n == steps@.len(),
            values_of(r@) == step_entries(steps@.take(i as int)),
    {
        proof {
            lemma_step_entries_step(steps@, i as int);
        }
        let step = &steps[i];
        let ghost before = values_of(r@);
        let k = step.step.len();
        for j in 0..k
            invariant
                k == step.step@.len(),
                values_of(r@) == before + step.step@.take(j as int),
        {
            let ghost old_vals = values_of(r@);
            r.push(&step.step[j]);
            assert(values_of(r@) =~= old_vals.push(step.step@[j as int]));
            assert(step.step@.take(j + 1) =~= step.step@.take(j as int).push(step.step@[j as int]));
            assert(values_of(r@) =~= before + step.step@.take(j + 1));
        }
        assert(step.step@.take(k as int) =~= step.step@);
    }
    assert(steps@.take(n as int) =~= steps@);
    r
}

/// Converts the events of test steps: each needs a name and non-empty
/// field values.
fn convert_test_events(steps: &Vec<YamlTestStep>) -> (r: Result<Vec<domain::TestEvent>, ConversionError>)
    ensures
        match entries_error(step_entries(steps@), "test event name"@) {
            Some(e) => r matches Err(x) && x@ == e,
            None => r matches Ok(v) && test_events_converted(v@, step_entries(steps@)),
        },
{
    let entries = step_entry_refs(steps);
    let ghost es = values_of(entries@);
    let mut out: Vec<domain::TestEvent> = Vec::new();
    let n = entries.len();
    assert(es.skip(0) =~= es);
    for i in 0..n
        invariant
            n == entries@.len(),
            es == values_of(entries@),
            es == step_entries(steps@),
            entries_error(es, "test event name"@) == entries_error(es.skip(i as int), "test event name"@),
            out@.len() == i,
            forall|k: int| 0 <= k < i ==> (#[trigger] out@[k]).name@ == es[k].0@ && pairs_converted(
                out@[k].fields@,
                es[k].1@,
            ),
    {
        let ghost rest = es.skip(i as int);
        assert(rest[0] == es[i as int]);
        assert(rest.drop_first() =~= es.skip(i + 1));
        let entry = entries[i];
        assert(*entry == es[i as int]);
        let name = match non_empty(entry.0.clone(), "test event name") {
            Ok(x) => x,
            Err(e) => return Err(e),
        };
        let fields = match convert_placeholder_pairs(&entry.1) {
            Ok(x) => x,
            Err(e) => return Err(e),
        };
        out.push(domain::TestEvent { name: domain::EventName::new(name), fields });
    }
    assert(es.skip(n as int) =~= Seq::<(String, Vec<(String, String)>)>::empty());
    Ok(out)
}

/// Converts the commands of test steps: each needs a name and non-empty
/// field values.
fn convert_test_actions(steps: &Vec<YamlTestStep>) -> (r: Result<Vec<domain::TestAction>, ConversionError>)
    ensures
        match entries_error(step_entries(steps@), "test command name"@) {
            Some(e) => r matches Err(x) && x@ == e,
            None => r matches Ok(v) && test_actions_converted(v@, step_entries(steps@)),
        },
{
    let entries = step_entry_refs(steps);
    let ghost es = values_of(entries@);
    let mut out: Vec<domain::TestAction> = Vec::new();
    let n = entries.len();
    assert(es.skip(0) =~= es);
    for i in 0..n
        invariant
            n == entries@.len(),
            es == values_of(entries@),
            es == step_entries(steps@),
            entries_error(es, "test command name"@) == entries_error(es.skip(i as int), "test command name"@),
            out@.len() == i,
            forall|k: int| 0 <= k < i ==> (#[trigger] out@[k]).name@ == es[k].0@ && pairs_converted(
                out@[k].fields@,
                es[k].1@,
            ),
    {
        let ghost rest = es.skip(i as int);
        assert(rest[0] == es[i as int]);
        assert(rest.drop_first() =~= es.skip(i + 1));
        let entry = entries[i];
        assert(*entry == es[i as int]);
        let name = match non_empty(entry.0.clone(), "test command name") {
            Ok(x) => x,
            Err(e) => return Err(e),
        };
        let fields = match convert_placeholder_pairs(&entry.1) {
            Ok(x) => x,
            Err(e) => return Err(e),
        };
        out.push(domain::TestAction { name: domain::CommandName::new(name), fields });
    }
    assert(es.skip(n as int) =~= Seq::<(String, Vec<(String, String)>)>::empty());
    Ok(out)
}

/// Converts one test scenario.
fn convert_test_scenario(name: &String, scenario: &YamlTestScenario) -> (r: Result<
    (domain::TestScenarioName, domain::TestScenario),
    ConversionError,
>)
    ensures
        match scenario_error((*name, *scenario)) {
            Some(e) => r matches Err(x) && x@ == e,
            None => r matches Ok(v) && scenario_converted(v, (*name, *scenario)),
        },
{
    let name = match non_empty(name.clone(), "test scenario name") {
        Ok(x) => x,
        Err(e) => return Err(e),
    };
    let given = match convert_test_events(&scenario.given) {
        Ok(x) => x,
        Err(e) => return Err(e),
    };
    let when_actions = match convert_test_actions(&scenario.when) {
        Ok(x) => x,
        Err(e) => return Err(e),
    };
    let when = match vec_to_non_empty(when_actions, "when actions") {
        Ok(x) => x,
        Err(e) => return Err(e),
    };
    let then_events = match convert_test_events(scenario.expected()) {
        Ok(x) => x,
        Err(e) => return Err(e),
    };
    let expected = match vec_to_non_empty(then_events, "then events") {
        Ok(x) => x,
        Err(e) => return Err(e),
    };
    Ok((domain::TestScenarioName::new(name), domain::TestScenario { given, when, then: expected }))
}

/// Converts test scenarios.
fn convert_test_scenarios(tests: &Vec<(String, YamlTestScenario)>) -> (r: Result<
    Vec<(domain::TestScenarioName, domain::TestScenario)>,
    ConversionError,
>)
    ensures
        match scenarios_error(tests@) {
            Some(e) => r matches Err(x) && x@ == e,
            None => r matches Ok(v) && scenarios_converted(v@, tests@),
        },
{
    let mut out: Vec<(domain::TestScenarioName, domain::TestScenario)> = Vec::new();
    let n = tests.len();
    assert(tests@.skip(0) =~= tests@);
    for i in 0..n
        invariant
            n == tests@.len(),
            scenarios_error(tests@) == scenarios_error(tests@.skip(i as int)),
            out@.len() == i,
            forall|k: int| 0 <= k < i ==> scenario_converted(#[trigger] out@[k], tests@[k]),
    {
        let ghost rest = tests@.skip(i as int);
        assert(rest[0] == tests@[i as int]);
        assert(rest.drop_first() =~= tests@.skip(i + 1));
        let (name, scenario) = &tests[i];
        let converted = match convert_test_scenario(name, scenario) {
            Ok(x) => x,
            Err(e) => return Err(e),
        };
        out.push(converted);
    }
    assert(tests@.skip(n as int) =~= Seq::<(String, YamlTestScenario)>::empty());
    Ok(out)
}

/// Converts the event definitions.
fn convert_events(events: &Vec<(String, YamlEvent)>, swimlane_ids: &Vec<String>) -> (r: Result<
    Vec<(domain::EventName, domain::EventDefinition)>,
    ConversionError,
>)
    ensures
        match events_error(events@, texts(swimlane_ids@)) {
            Some(e) => r matches Err(x) && x@ == e,
            None => r matches Ok(v) && v@.len() == events@.len() && forall|k: int|
                0 <= k < v@.len() ==> event_converted(#[trigger] v@[k], events@[k]),
        },
{
    let ghost ids = texts(swimlane_ids@);
    let mut out: Vec<(domain::EventName, domain::EventDefinition)> = Vec::new();
    let n = events.len();
    assert(events@.skip(0) =~= events@);
    for i in 0..n
        invariant
            n == events@.len(),
            ids == texts(swimlane_ids@),
            events_error(events@, ids) == events_error(events@.skip(i as int), ids),
            out@.len() == i,
            forall|k: int| 0 <= k < i ==> event_converted(#[trigger] out@[k], events@[k]),
    {
        let ghost rest = events@.skip(i as int);
        assert(rest[0] == events@[i as int]);
        assert(rest.drop_first() =~= events@.skip(i + 1));
        let (name, event) = &events[i];
        match check_swimlane(swimlane_ids, &event.swimlane) {
            Ok(()) => {},
            Err(e) => return Err(e),
        }
        let name = match non_empty(name.clone(), "event name") {
            Ok(x) => x,
            Err(e) => return Err(e),
        };
        let description = match non_empty(event.description.clone(), "event description") {
            Ok(x) => x,
            Err(e) => return Err(e),
        };
        let swimlane = match non_empty(event.swimlane.clone(), "swimlane ID") {
            Ok(x) => x,
            Err(e) => return Err(e),
        };
        let data = match convert_field_definitions(&event.data) {
            Ok(x) => x,
            Err(e) => return Err(e),
        };
        out.push(
            (
                domain::EventName::new(name),
                domain::EventDefinition {
                    description: domain::Description::new(description),
                    swimlane: domain::SwimlaneId::new(swimlane),
                    data,
                },
            ),
        );
    }
    assert(events@.skip(n as int) =~= Seq::<(String, YamlEvent)>::empty());
    Ok(out)
}

/// Converts the command definitions.
fn convert_commands(commands: &Vec<(String, YamlCommand)>, swimlane_ids: &Vec<String>) -> (r: Result<
    Vec<(domain::CommandName, domain::CommandDefinition)>,
    ConversionError,
>)
    ensures
        match commands_error(commands@, texts(swimlane_ids@)) {
            Some(e) => r matches Err(x) && x@ == e,
            None => r matches Ok(v) && v@.len() == commands@.len() && forall|k: int|
                0 <= k < v@.len() ==> command_converted(#[trigger] v@[k], commands@[k]),
        },
{
    let ghost ids = texts(swimlane_ids@);
    let mut out: Vec<(domain::CommandName, domain::CommandDefinition)> = Vec::new();
    let n = commands.len();
    assert(commands@.skip(0) =~= commands@);
    for i in 0..n
        invariant
            n == commands@.len(),
            ids == texts(swimlane_ids@),
            commands_error(commands@, ids) == commands_error(commands@.skip(i as int), ids),
            out@.len() == i,
            forall|k: int| 0 <= k < i ==> command_converted(#[trigger] out@[k], commands@[k]),
    {
        let ghost rest = commands@.skip(i as int);
        assert(rest[0] == commands@[i as int]);
        assert(rest.drop_first() =~= commands@.skip(i + 1));
        let (name, command) = &commands[i];
        match check_swimlane(swimlane_ids, &command.swimlane) {
            Ok(()) => {},
            Err(e) => return Err(e),
        }
        let name = match non_empty(name.clone(), "command name") {
            Ok(x) => x,
            Err(e) => return Err(e),
        };
        let description = match non_empty(command.description.clone(), "command description") {
            Ok(x) => x,
            Err(e) => return Err(e),
        };
        let swimlane = match non_empty(command.swimlane.clone(), "swimlane ID") {
            Ok(x) => x,
            Err(e) => return Err(e),
        };
        let data = match convert_field_definitions(&command.data) {
            Ok(x) => x,
            Err(e) => return Err(e),
        };
        let tests = match convert_test_scenarios(&command.tests) {
            Ok(x) => x,
            Err(e) => return Err(e),
        };
        out.push(
            (
                domain::CommandName::new(name),
                domain::CommandDefinition {
                    description: domain::Description::new(description),
                    swimlane: domain::SwimlaneId::new(swimlane),
                    data,
                    tests,
                },
            ),
        );
    }
    assert(commands@.skip(n as int) =~= Seq::<(String, YamlCommand)>::empty());
    Ok(out)
}


/// A component of a view, by reference.
enum ItemRef<'a> {
    Plain(&'a String, &'a String),
    Rich(&'a String, &'a YamlComplexComponent),
}

/// The component a reference stands for.
spec fn item_value(r: ItemRef) -> ComponentItem {
    match r {
        ItemRef::Plain(a, b) => ComponentItem::Plain(*a, *b),
        ItemRef::Rich(a, c) => ComponentItem::Rich(*a, *c),
    }
}

/// The components a list of references stands for.
spec fn item_values(v: Seq<ItemRef>) -> Seq<ComponentItem> {
    v.map_values(|r: ItemRef| item_value(r))
}

proof fn lemma_component_items_step(cs: Seq<YamlComponent>, i: int)
    requires
        0 <= i < cs.len(),
    ensures
        component_items(cs.take(i + 1)) == component_items(cs.take(i)) + items_of(cs[i]),
{
    assert(cs.take(i + 1).drop_last() =~= cs.take(i));
}

/// References to the components of a list of component entries.
fn component_item_refs(cs: &Vec<YamlComponent>) -> (r: Vec<ItemRef<'_>>)
    ensures
        item_values(r@) == component_items(cs@),
{
    let mut r: Vec<ItemRef> = Vec::new();
    let n = cs.len();
    assert(cs@.take(0) =~= Seq::<YamlComponent>::empty());
    assert(item_values(r@) =~= Seq::<ComponentItem>::empty());
    for i in 0..n
        invariant
            n == cs@.len(),
            item_values(r@) == component_items(cs@.take(i as int)),
    {
        proof {
            lemma_component_items_step(cs@, i as int);
        }
        let ghost before = item_values(r@);
        match &cs[i] {
            YamlComponent::Simple { component } => {
                let k = component.len();
                for j in 0..k
                    invariant
                        k == component@.len(),
                        item_values(r@) == before + items_of(YamlComponent::Simple { component: *component }).take(j as int),
                {
                    let ghost old_vals = item_values(r@);
                    let (name, t) = &component[j];
                    r.push(ItemRef::Plain(name, t));
                    assert(item_values(r@) =~= old_vals.push(ComponentItem::Plain(*name, *t)));
                    assert(items_of(YamlComponent::Simple { component: *component }).take(j + 1) =~= items_of(
                        YamlComponent::Simple { component: *component },
                    ).take(j as int).push(ComponentItem::Plain(*name, *t)));
                }
                assert(items_of(YamlComponent::Simple { component: *component }).take(k as int) =~= items_of(
                    YamlComponent::Simple { component: *component },
                ));
            },
            YamlComponent::Complex { component } => {
                let k = component.len();
                for j in 0..k
                    invariant
                        k == component@.len(),
                        item_values(r@) == before + items_of(YamlComponent::Complex { component: *component }).take(j as int),
                {
                    let ghost old_vals = item_values(r@);
                    let (name, c) = &component[j];
                    r.push(ItemRef::Rich(name, c));
                    assert(item_values(r@) =~= old_vals.push(ComponentItem::Rich(*name, *c)));
                    assert(items_of(YamlComponent::Complex { component: *component }).take(j + 1) =~= items_of(
                        YamlComponent::Complex { component: *component },
                    ).take(j as int).push(ComponentItem::Rich(*name, *c)));
                }
                assert(items_of(YamlComponent::Complex { component: *component }).take(k as int) =~= items_of(
                    YamlComponent::Complex { component: *component },
                ));
            },
        }
    }
    assert(cs@.take(n as int) =~= cs@);
    r
}

/// Converts the actions of a form: each needs a name.
fn convert_actions(actions: &Vec<String>) -> (r: Result<Vec<domain::ActionName>, ConversionError>)
    ensures
        match texts_error(actions@, "action name"@) {
            Some(e) => r matches Err(x) && x@ == e,
            None => r matches Ok(v) && action_names(v@) == texts(actions@),
        },
{
    let mut out: Vec<domain::ActionName> = Vec::new();
    let n = actions.len();
    assert(actions@.skip(0) =~= actions@);
    for i in 0..n
        invariant
            n == actions@.len(),
            texts_error(actions@, "action name"@) == texts_error(actions@.skip(i as int), "action name"@),
            out@.len() == i,
            forall|k: int| 0 <= k < i ==> (#[trigger] out@[k])@ == actions@[k]@,
    {
        let ghost rest = actions@.skip(i as int);
        assert(rest[0] == actions@[i as int]);
        assert(rest.drop_first() =~= actions@.skip(i + 1));
        let name = match non_empty(actions[i].clone(), "action name") {
            Ok(x) => x,
            Err(e) => return Err(e),
        };
        out.push(domain::ActionName::new(name));
    }
    assert(actions@.skip(n as int) =~= Seq::<String>::empty());
    assert(action_names(out@) =~= texts(actions@));
    Ok(out)
}

/// Converts one component.
fn convert_item(it: ItemRef) -> (r: Result<domain::Component, ConversionError>)
    ensures
        match item_error(item_value(it)) {
            Some(e) => r matches Err(x) && x@ == e,
            None => r matches Ok(v) && item_converted(v, item_value(it)),
        },
{
    match it {
        ItemRef::Plain(name, t) => {
            let name = match non_empty(name.clone(), "component name") {
                Ok(x) => x,
                Err(e) => return Err(e),
            };
            let t = match non_empty(t.clone(), "component type") {
                Ok(x) => x,
                Err(e) => return Err(e),
            };
            Ok(
                domain::Component {
                    name: domain::ComponentName::new(name),
                    component_type: domain::ComponentType::Simple(domain::SimpleComponentType::new(t)),
                },
            )
        },
        ItemRef::Rich(name, complex) => {
            let name = match non_empty(name.clone(), "component name") {
                Ok(x) => x,
                Err(e) => return Err(e),
            };
            let lower = to_lowercase(complex.component_type.as_str());
            proof {
                reveal_strlit("form");
            }
            if crate::infrastructure::text::str_equal(lower.as_str(), "form") {
                let fields = match convert_form_pairs(&complex.fields, "form field name", "form field type") {
                    Ok(x) => x,
                    Err(e) => return Err(e),
                };
                let actions = match convert_actions(&complex.actions) {
                    Ok(x) => x,
                    Err(e) => return Err(e),
                };
                let ghost names = action_names(actions@);
                assert(actions@.len() == complex.actions@.len()) by {
                    assert(action_names(actions@).len() == texts(complex.actions@).len());
                }
                let actions = match vec_to_non_empty(actions, "form actions") {
                    Ok(x) => x,
                    Err(e) => return Err(e),
                };
                assert(action_names(actions@) == names);
                Ok(
                    domain::Component {
                        name: domain::ComponentName::new(name),
                        component_type: domain::ComponentType::Form { fields, actions },
                    },
                )
            } else {
                let t = match non_empty(complex.component_type.clone(), "component type") {
                    Ok(x) => x,
                    Err(e) => return Err(e),
                };
                Ok(
                    domain::Component {
                        name: domain::ComponentName::new(name),
                        component_type: domain::ComponentType::Simple(domain::SimpleComponentType::new(t)),
                    },
                )
            }
        },
    }
}

/// Converts the components of a view.
fn convert_components(components: &Vec<YamlComponent>) -> (r: Result<Vec<domain::Component>, ConversionError>)
    ensures
        match items_error(component_items(components@)) {
            Some(e) => r matches Err(x) && x@ == e,
            None => r matches Ok(v) && items_converted(v@, component_items(components@)),
        },
{
    let items = component_item_refs(components);
    let ghost its = item_values(items@);
    let mut out: Vec<domain::Component> = Vec::new();
    let n = items.len();
    assert(its.skip(0) =~= its);
    for i in 0..n
        invariant
            n == items@.len(),
            its == item_values(items@),
            its == component_items(components@),
            items_error(its) == items_error(its.skip(i as int)),
            out@.len() == i,
            forall|k: int| 0 <= k < i ==> item_converted(#[trigger] out@[k], its[k]),
    {
        let ghost rest = its.skip(i as int);
        assert(rest[0] == its[i as int]);
        assert(rest.drop_first() =~= its.skip(i + 1));
        let it = match &items[i] {
            ItemRef::Plain(a, b) => ItemRef::Plain(*a, *b),
            ItemRef::Rich(a, c) => ItemRef::Rich(*a, *c),
        };
        assert(item_value(it) == its[i as int]);
        let c = match convert_item(it) {
            Ok(x) => x,
            Err(e) => return Err(e),
        };
        out.push(c);
    }
    assert(its.skip(n as int) =~= Seq::<ComponentItem>::empty());
    Ok(out)
}

/// Converts the view definitions.
fn convert_views(views: &Vec<(String, YamlView)>, swimlane_ids: &Vec<String>) -> (r: Result<
    Vec<(domain::ViewName, domain::ViewDefinition)>,
    ConversionError,
>)
    ensures
        match views_error(views@, texts(swimlane_ids@)) {
            Some(e) => r matches Err(x) && x@ == e,
            None => r matches Ok(v) && v@.len() == views@.len() && forall|k: int|
                0 <= k < v@.len() ==> view_converted(#[trigger] v@[k], views@[k]),
        },
{
    let ghost ids = texts(swimlane_ids@);
    let mut out: Vec<(domain::ViewName, domain::ViewDefinition)> = Vec::new();
    let n = views.len();
    assert(views@.skip(0) =~= views@);
    for i in 0..n
        invariant
            n == views@.len(),
            ids == texts(swimlane_ids@),
            views_error(views@, ids) == views_error(views@.skip(i as int), ids),
            out@.len() == i,
            forall|k: int| 0 <= k < i ==> view_converted(#[trigger] out@[k], views@[k]),
    {
        let ghost rest = views@.skip(i as int);
        assert(rest[0] == views@[i as int]);
        assert(rest.drop_first() =~= views@.skip(i + 1));
        let (name, view) = &views[i];
        match check_swimlane(swimlane_ids, &view.swimlane) {
            Ok(()) => {},
            Err(e) => return Err(e),
        }
        let name = match non_empty(name.clone(), "view name") {
            Ok(x) => x,
            Err(e) => return Err(e),
        };
        let components = match convert_components(&view.components) {
            Ok(x) => x,
            Err(e) => return Err(e),
        };
        let ghost converted = components@;
        let components = match vec_to_non_empty(components, "view components") {
            Ok(x) => x,
            Err(e) => return Err(e),
        };
        let description = match non_empty(view.description.clone(), "view description") {
            Ok(x) => x,
            Err(e) => return Err(e),
        };
        let swimlane = match non_empty(view.swimlane.clone(), "swimlane ID") {
            Ok(x) => x,
            Err(e) => return Err(e),
        };
        out.push(
            (
                domain::ViewName::new(name),
                domain::ViewDefinition {
                    description: domain::Description::new(description),
                    swimlane: domain::SwimlaneId::new(swimlane),
                    components,
                },
            ),
        );
    }
    assert(views@.skip(n as int) =~= Seq::<(String, YamlView)>::empty());
    Ok(out)
}

/// Converts the projection definitions.
fn convert_projections(projections: &Vec<(String, YamlProjection)>, swimlane_ids: &Vec<String>) -> (r: Result<
    Vec<(domain::ProjectionName, domain::ProjectionDefinition)>,
    ConversionError,
>)
    ensures
        match projections_error(projections@, texts(swimlane_ids@)) {
            Some(e) => r matches Err(x) && x@ == e,
            None => r matches Ok(v) && v@.len() == projections@.len() && forall|k: int|
                0 <= k < v@.len() ==> projection_converted(#[trigger] v@[k], projections@[k]),
        },
{
    let ghost ids = texts(swimlane_ids@);
    let mut out: Vec<(domain::ProjectionName, domain::ProjectionDefinition)> = Vec::new();
    let n = projections.len();
    assert(projections@.skip(0) =~= projections@);
    for i in 0..n
        invariant
            n == projections@.len(),
            ids == texts(swimlane_ids@),
            projections_error(projections@, ids) == projections_error(projections@.skip(i as int), ids),
            out@.len() == i,
            forall|k: int| 0 <= k < i ==> projection_converted(#[trigger] out@[k], projections@[k]),
    {
        let ghost rest = projections@.skip(i as int);
        assert(rest[0] == projections@[i as int]);
        assert(rest.drop_first() =~= projections@.skip(i + 1));
        let (name, projection) = &projections[i];
        match check_swimlane(swimlane_ids, &projection.swimlane) {
            Ok(()) => {},
            Err(e) => return Err(e),
        }
        let name = match non_empty(name.clone(), "projection name") {
            Ok(x) => x,
            Err(e) => return Err(e),
        };
        let fields = match convert_type_pairs(&projection.fields, "projection field name", "projection field type") {
            Ok(x) => x,
            Err(e) => return Err(e),
        };
        let description = match non_empty(projection.description.clone(), "projection description") {
            Ok(x) => x,
            Err(e) => return Err(e),
        };
        let swimlane = match non_empty(projection.swimlane.clone(), "swimlane ID") {
            Ok(x) => x,
            Err(e) => return Err(e),
        };
        out.push(
            (
                domain::ProjectionName::new(name),
                domain::ProjectionDefinition {
                    description: domain::Description::new(description),
                    swimlane: domain::SwimlaneId::new(swimlane),
                    fields,
                },
            ),
        );
    }
    assert(projections@.skip(n as int) =~= Seq::<(String, YamlProjection)>::empty());
    Ok(out)
}

/// Converts a query's output cases; a single case with fields becomes
/// those fields.
fn convert_output_spec(output: &YamlQueryOutput) -> (r: Result<domain::OutputSpec, ConversionError>)
    ensures
        match cases_error(output.one_of@) {
            Some(e) => r matches Err(x) && x@ == e,
            None => r matches Ok(v) && output_converted(v, output.one_of@),
        },
{
    let cs = &output.one_of;
    let mut cases: Vec<(domain::OutputCaseName, domain::OutputCase)> = Vec::new();
    let n = cs.len();
    assert(cs@.skip(0) =~= cs@);
    for i in 0..n
        invariant
            n == cs@.len(),
            cs@ == output.one_of@,
            cases_error(cs@) == cases_error(cs@.skip(i as int)),
            cases@.len() == i,
            forall|k: int| 0 <= k < i ==> case_converted(#[trigger] cases@[k], cs@[k]),
    {
        let ghost rest = cs@.skip(i as int);
        assert(rest[0] == cs@[i as int]);
        assert(rest.drop_first() =~= cs@.skip(i + 1));
        let (name, variant) = &cs[i];
        let name = match non_empty(name.clone(), "output case name") {
            Ok(x) => x,
            Err(e) => return Err(e),
        };
        let case = match variant {
            YamlQueryVariant::Simple(error_type) => {
                let t = match non_empty(error_type.clone(), "error type name") {
                    Ok(x) => x,
                    Err(e) => return Err(e),
                };
                domain::OutputCase::Error(domain::ErrorTypeName::new(t))
            },
            YamlQueryVariant::Complex(fields) => {
                let f = match convert_type_pairs(fields, "output field name", "output field type") {
                    Ok(x) => x,
                    Err(e) => return Err(e),
                };
                domain::OutputCase::Fields(f)
            },
        };
        cases.push((domain::OutputCaseName::new(name), case));
    }
    assert(cs@.skip(n as int) =~= Seq::<(String, YamlQueryVariant)>::empty());
    if cases.len() == 1 {
        let ghost all = cases@;
        let (name, case) = cases.remove(0);
        assert(case_converted((name, case), cs@[0]));
        match case {
            domain::OutputCase::Fields(fields) => Ok(domain::OutputSpec::Single(fields)),
            other => {
                let mut single: Vec<(domain::OutputCaseName, domain::OutputCase)> = Vec::new();
                single.push((name, other));
                Ok(domain::OutputSpec::OneOf(single))
            },
        }
    } else {
        Ok(domain::OutputSpec::OneOf(cases))
    }
}

/// Converts the query definitions.
fn convert_queries(queries: &Vec<(String, YamlQuery)>, swimlane_ids: &Vec<String>) -> (r: Result<
    Vec<(domain::QueryName, domain::QueryDefinition)>,
    ConversionError,
>)
    ensures
        match queries_error(queries@, texts(swimlane_ids@)) {
            Some(e) => r matches Err(x) && x@ == e,
            None => r matches Ok(v) && v@.len() == queries@.len() && forall|k: int|
                0 <= k < v@.len() ==> query_converted(#[trigger] v@[k], queries@[k]),
        },
{
    let ghost ids = texts(swimlane_ids@);
    let mut out: Vec<(domain::QueryName, domain::QueryDefinition)> = Vec::new();
    let n = queries.len();
    assert(queries@.skip(0) =~= queries@);
    for i in 0..n
        invariant
            n == queries@.len(),
            ids == texts(swimlane_ids@),
            queries_error(queries@, ids) == queries_error(queries@.skip(i as int), ids),
            out@.len() == i,
            forall|k: int| 0 <= k < i ==> query_converted(#[trigger] out@[k], queries@[k]),
    {
        let ghost rest = queries@.skip(i as int);
        assert(rest[0] == queries@[i as int]);
        assert(rest.drop_first() =~= queries@.skip(i + 1));
        let (name, query) = &queries[i];
        match check_swimlane(swimlane_ids, &query.swimlane) {
            Ok(()) => {},
            Err(e) => return Err(e),
        }
        let name = match non_empty(name.clone(), "query name") {
            Ok(x) => x,
            Err(e) => return Err(e),
        };
        let inputs = match convert_type_pairs(&query.inputs, "query input name", "query input type") {
            Ok(x) => x,
            Err(e) => return Err(e),
        };
        let outputs = match convert_output_spec(&query.outputs) {
            Ok(x) => x,
            Err(e) => return Err(e),
        };
        let swimlane = match non_empty(query.swimlane.clone(), "swimlane ID") {
            Ok(x) => x,
            Err(e) => return Err(e),
        };
        out.push(
            (
                domain::QueryName::new(name),
                domain::QueryDefinition { swimlane: domain::SwimlaneId::new(swimlane), inputs, outputs },
            ),
        );
    }
    assert(queries@.skip(n as int) =~= Seq::<(String, YamlQuery)>::empty());
    Ok(out)
}

/// Converts the automation definitions.
fn convert_automations(automations: &Vec<(String, YamlAutomation)>, swimlane_ids: &Vec<String>) -> (r: Result<
    Vec<(domain::AutomationName, domain::AutomationDefinition)>,
    ConversionError,
>)
    ensures
        match automations_error(automations@, texts(swimlane_ids@)) {
            Some(e) => r matches Err(x) && x@ == e,
            None => r matches Ok(v) && v@.len() == automations@.len() && forall|k: int|
                0 <= k < v@.len() ==> automation_converted(#[trigger] v@[k], automations@[k]),
        },
{
    let ghost ids = texts(swimlane_ids@);
    let mut out: Vec<(domain::AutomationName, domain::AutomationDefinition)> = Vec::new();
    let n = automations.len();
    assert(automations@.skip(0) =~= automations@);
    for i in 0..n
        invariant
            n == automations@.len(),
            ids == texts(swimlane_ids@),
            automations_error(automations@, ids) == automations_error(automations@.skip(i as int), ids),
            out@.len() == i,
            forall|k: int| 0 <= k < i ==> automation_converted(#[trigger] out@[k], automations@[k]),
    {
        let ghost rest = automations@.skip(i as int);
        assert(rest[0] == automations@[i as int]);
        assert(rest.drop_first() =~= automations@.skip(i + 1));
        let (name, automation) = &automations[i];
        match check_swimlane(swimlane_ids, &automation.swimlane) {
            Ok(()) => {},
            Err(e) => return Err(e),
        }
        let name = match non_empty(name.clone(), "automation name") {
            Ok(x) => x,
            Err(e) => return Err(e),
        };
        let swimlane = match non_empty(automation.swimlane.clone(), "swimlane ID") {
            Ok(x) => x,
            Err(e) => return Err(e),
        };
        out.push(
            (
                domain::AutomationName::new(name),
                domain::AutomationDefinition { swimlane: domain::SwimlaneId::new(swimlane) },
            ),
        );
    }
    assert(automations@.skip(n as int) =~= Seq::<(String, YamlAutomation)>::empty());
    Ok(out)
}


/// Whether `c` occurs in `s`.
fn has_char(s: &str, c: char) -> (r: bool)
    ensures
        r == s@.contains(c),
{
    let n = s.unicode_len();
    for i in 0..n
        invariant
            n == s@.len(),
            forall|j: int| 0 <= j < i ==> s@[j] != c,
    {
        if s.get_char(i) == c {
            assert(s@[i as int] == c);
            return true;
        }
    }
    false
}

/// Whether `s` ends with `t`.
fn ends_with_text(s: &str, t: &str) -> (r: bool)
    ensures
        r == ends_with(s@, t@),
{
    let n = s.unicode_len();
    let m = t.unicode_len();
    if m > n {
        return false;
    }
    let start = n - m;
    for i in 0..m
        invariant
            n == s@.len(),
            m == t@.len(),
            start == n - m,
            forall|j: int| 0 <= j < i ==> s@[start + j] == t@[j],
    {
        if s.get_char(start + i) != t.get_char(i) {
            assert(s@.subrange(s@.len() - t@.len(), s@.len() as int)[i as int] != t@[i as int]);
            return false;
        }
    }
    assert(s@.subrange(s@.len() - t@.len(), s@.len() as int) =~= t@);
    true
}

/// Whether `s` starts with `t`.
fn starts_with_text(s: &str, t: &str) -> (r: bool)
    ensures
        r == starts_with(s@, t@),
{
    let n = s.unicode_len();
    let m = t.unicode_len();
    if m > n {
        return false;
    }
    for i in 0..m
        invariant
            n == s@.len(),
            m == t@.len(),
            m <= n,
            forall|j: int| 0 <= j < i ==> s@[j] == t@[j],
    {
        if s.get_char(i) != t.get_char(i) {
            assert(s@.subrange(0, t@.len() as int)[i as int] != t@[i as int]);
            return false;
        }
    }
    assert(s@.subrange(0, t@.len() as int) =~= t@);
    true
}

/// Whether `t` occurs in `s`.
fn contains_str(s: &str, t: &str) -> (r: bool)
    ensures
        r == contains_text(s@, t@),
{
    let n = s.unicode_len();
    let m = t.unicode_len();
    if m == 0 {
        assert(s@.subrange(0int, 0int + t@.len()) =~= t@);
        return true;
    }
    if m > n {
        assert(!contains_text(s@, t@));
        return false;
    }
    let mut i: usize = 0;
    while i <= n - m
        invariant
            n == s@.len(),
            m == t@.len(),
            1 <= m <= n,
            i <= n - m + 1,
            forall|k: int| 0 <= k < i ==> #[trigger] s@.subrange(k, k + m) != t@,
        decreases n - m + 1 - i,
    {
        let mut matched = true;
        let mut j: usize = 0;
        while j < m
            invariant
                n == s@.len(),
                m == t@.len(),
                i + m <= n,
                j <= m,
                matched ==> forall|q: int| 0 <= q < j ==> s@[i + q] == t@[q],
                !matched ==> s@.subrange(i as int, i + m) != t@,
            decreases m - j,
        {
            if s.get_char(i + j) != t.get_char(j) {
                assert(s@.subrange(i as int, i + m)[j as int] != t@[j as int]);
                matched = false;
            }
            j += 1;
        }
        if matched {
            assert(s@.subrange(i as int, i + m) =~= t@);
            return true;
        }
        i += 1;
    }
    assert(!contains_text(s@, t@)) by {
        if contains_text(s@, t@) {
            let k = choose|k: int| 0 <= k && k + t@.len() <= s@.len() && #[trigger] s@.subrange(k, k + t@.len()) == t@;
            assert(s@.subrange(k, k + m) != t@);
        }
    }
    false
}

/// Reads an entity reference: a path with a dot is a view; otherwise the
/// kind is guessed from the lowercase text (see `reference_kind`).
fn parse_entity_reference(ref_str: &str) -> (r: Result<domain::EntityReference, ConversionError>)
    ensures
        match empty_field(ref_str@, "entity reference"@) {
            Some(e) => r matches Err(x) && x@ == e,
            None => r matches Ok(v) && reference_converted(v, ref_str@),
        },
{
    let name = match non_empty(ref_str.to_owned(), "entity reference") {
        Ok(x) => x,
        Err(e) => return Err(e),
    };
    if has_char(ref_str, '.') {
        return Ok(domain::EntityReference::View(domain::ViewPath::new(name)));
    }
    let lower = to_lowercase(ref_str);
    let l = lower.as_str();
    if ends_with_text(l, "event") || ends_with_text(l, "ed") || ends_with_text(l, "sent") {
        Ok(domain::EntityReference::Event(domain::EventName::new(name)))
    } else if ends_with_text(l, "command") || starts_with_text(l, "create") || starts_with_text(l, "update")
        || starts_with_text(l, "delete") {
        Ok(domain::EntityReference::Command(domain::CommandName::new(name)))
    } else if ends_with_text(l, "projection") {
        Ok(domain::EntityReference::Projection(domain::ProjectionName::new(name)))
    } else if ends_with_text(l, "screen") || ends_with_text(l, "view") || ends_with_text(l, "page") {
        Ok(domain::EntityReference::View(domain::ViewPath::new(name)))
    } else if ends_with_text(l, "query") || starts_with_text(l, "get") || starts_with_text(l, "find") {
        Ok(domain::EntityReference::Query(domain::QueryName::new(name)))
    } else if ends_with_text(l, "automation") || contains_str(l, "process") {
        Ok(domain::EntityReference::Automation(domain::AutomationName::new(name)))
    } else {
        Ok(domain::EntityReference::Command(domain::CommandName::new(name)))
    }
}

/// The position of the first arrow at or after `from`, if any.
fn find_arrow(s: &Vec<char>, from: usize) -> (r: Option<usize>)
    ensures
        match r {
            Some(p) => arrow_from(s@, from as int) == p && p + 1 < s@.len(),
            None => arrow_from(s@, from as int) == -1,
        },
{
    let n = s.len();
    let mut i = from;
    while i < n && i + 1 < n
        invariant
            n == s@.len(),
            from <= i,
            arrow_from(s@, i as int) == arrow_from(s@, from as int),
        decreases n - i,
    {
        if s[i] == '-' && s[i + 1] == '>' {
            return Some(i);
        }
        i += 1;
    }
    None
}

/// Reads a connection `from -> to`: exactly one arrow, with a reference
/// on each side.
fn parse_connection(conn_str: &str) -> (r: Result<domain::Connection, ConversionError>)
    ensures
        match connection_error(conn_str@) {
            Some(e) => r matches Err(x) && x@ == e,
            None => r matches Ok(v) && connection_converted(v, conn_str@),
        },
{
    let chars = crate::infrastructure::text::chars_of(conn_str);
    let total = chars.len();
    let first = find_arrow(&chars, 0);
    let p = match first {
        Some(p) => {
            match find_arrow(&chars, p + 2) {
                None => p,
                Some(_) => {
                    let mut m = "Expected 'from -> to' format, got: ".to_owned();
                    append_str(&mut m, conn_str);
                    return Err(ConversionError::InvalidConnection(m));
                },
            }
        },
        None => {
            let mut m = "Expected 'from -> to' format, got: ".to_owned();
            append_str(&mut m, conn_str);
            return Err(ConversionError::InvalidConnection(m));
        },
    };
    let before = crate::infrastructure::text::string_from_range(&chars, 0, p);
    let after = crate::infrastructure::text::string_from_range(&chars, p + 2, chars.len());
    let from_text = trim(before.as_str());
    let to_text = trim(after.as_str());
    let from = match parse_entity_reference(from_text.as_str()) {
        Ok(x) => x,
        Err(e) => return Err(e),
    };
    let to = match parse_entity_reference(to_text.as_str()) {
        Ok(x) => x,
        Err(e) => return Err(e),
    };
    Ok(domain::Connection { from, to })
}

/// Converts the slices: each needs a name and at least one connection,
/// and each connection must read.
fn convert_slices(slices: &IndexMap<String, Vec<String>>) -> (r: Result<
    Vec<(domain::SliceName, NonEmpty<domain::Connection>)>,
    ConversionError,
>)
    ensures
        match slices_error(slice_entries(*slices)) {
            Some(e) => r matches Err(x) && x@ == e,
            None => r matches Ok(v) && v@.len() == slice_entries(*slices).len() && forall|k: int|
                0 <= k < v@.len() ==> slice_converted(#[trigger] v@[k], slice_entries(*slices)[k]),
        },
{
    let ghost es = slice_entries(*slices);
    let mut out: Vec<(domain::SliceName, NonEmpty<domain::Connection>)> = Vec::new();
    let n = slice_count(slices);
    assert(es.skip(0) =~= es);
    for i in 0..n
        invariant
            n == es.len(),
            es == slice_entries(*slices),
            slices_error(es) == slices_error(es.skip(i as int)),
            out@.len() == i,
            forall|k: int| 0 <= k < i ==> slice_converted(#[trigger] out@[k], es[k]),
    {
        let ghost rest = es.skip(i as int);
        assert(rest[0] == es[i as int]);
        assert(rest.drop_first() =~= es.skip(i + 1));
        let (name, connections) = slice_at(slices, i);
        let ghost cs = texts(connections@);
        let name = match non_empty(name, "slice name") {
            Ok(x) => x,
            Err(e) => return Err(e),
        };
        let mut converted: Vec<domain::Connection> = Vec::new();
        let m = connections.len();
        assert(cs.skip(0) =~= cs);
        for j in 0..m
            invariant
                m == connections@.len(),
                cs == texts(connections@),
                es == slice_entries(*slices),
                i < es.len(),
                slices_error(es) == slices_error(es.skip(i as int)),
                es.skip(i as int)[0] == es[i as int],
                cs == es[i as int].1,
                es[i as int].0.len() > 0,
                connections_error(cs) == connections_error(cs.skip(j as int)),
                converted@.len() == j,
                forall|k: int| 0 <= k < j ==> connection_converted(#[trigger] converted@[k], cs[k]),
        {
            let ghost crest = cs.skip(j as int);
            assert(crest[0] == cs[j as int]);
            assert(crest.drop_first() =~= cs.skip(j + 1));
            let c = match parse_connection(connections[j].as_str()) {
                Ok(x) => x,
                Err(e) => return Err(e),
            };
            converted.push(c);
        }
        assert(cs.skip(m as int) =~= Seq::<Seq<char>>::empty());
        let ghost list = converted@;
        let non_empty_connections = match vec_to_non_empty(converted, "slice connections") {
            Ok(x) => x,
            Err(e) => return Err(e),
        };
        out.push((domain::SliceName::new(name), non_empty_connections));
        assert(slice_converted(out@[i as int], es[i as int]));
    }
    assert(es.skip(n as int) =~= Seq::<(Seq<char>, Seq<Seq<char>>)>::empty());
    Ok(out)
}

/// Converts a YAML model as read from a file into the domain model, or
/// reports the first problem (see `model_error`).
pub fn convert_yaml_to_domain(yaml: ParsedModel) -> (r: Result<domain::YamlEventModel, ConversionError>)
    ensures
        match model_error(yaml) {
            Some(e) => r matches Err(x) && x@ == e,
            None => r matches Ok(d) && model_converted(d, yaml),
        },
        r matches Ok(d) ==> (parsed_names_distinct(yaml) ==> domain_names_distinct(d)),
{
    let ghost y = yaml;
    let swimlanes = match convert_swimlanes(&yaml.swimlanes) {
        Ok(x) => x,
        Err(e) => return Err(e),
    };
    let lanes = swimlanes.iter();
    let mut lane_ids: Vec<String> = Vec::new();
    let n = lanes.len();
    for i in 0..n
        invariant
            n == lanes@.len(),
            lanes@.len() == swimlanes@.len(),
            forall|k: int| 0 <= k < lanes@.len() ==> *lanes@[k] == swimlanes@[k],
            lane_ids@.len() == i,
            forall|k: int| 0 <= k < i ==> (#[trigger] lane_ids@[k])@ == swimlanes@[k].id@,
    {
        lane_ids.push(lanes[i].id.clone().into_inner().as_str().to_owned());
    }
    assert(texts(lane_ids@) =~= swimlane_ids(y.swimlanes@));
    let events = match convert_events(&yaml.events, &lane_ids) {
        Ok(x) => x,
        Err(e) => return Err(e),
    };
    let commands = match convert_commands(&yaml.commands, &lane_ids) {
        Ok(x) => x,
        Err(e) => return Err(e),
    };
    let views = match convert_views(&yaml.views, &lane_ids) {
        Ok(x) => x,
        Err(e) => return Err(e),
    };
    let projections = match convert_projections(&yaml.projections, &lane_ids) {
        Ok(x) => x,
        Err(e) => return Err(e),
    };
    let queries = match convert_queries(&yaml.queries, &lane_ids) {
        Ok(x) => x,
        Err(e) => return Err(e),
    };
    let automations = match convert_automations(&yaml.automations, &lane_ids) {
        Ok(x) => x,
        Err(e) => return Err(e),
    };
    let slices = match convert_slices(&yaml.slices) {
        Ok(x) => x,
        Err(e) => return Err(e),
    };
    let version = match yaml.version {
        Some(v) => {
            let v = match non_empty(v, "version") {
                Ok(x) => x,
                Err(e) => return Err(e),
            };
            Some(domain::SchemaVersion::new(v))
        },
        None => None,
    };
    let workflow = match non_empty(yaml.workflow, "workflow") {
        Ok(x) => x,
        Err(e) => return Err(e),
    };
    let out = domain::YamlEventModel {
        version,
        workflow: domain::WorkflowName::new(workflow),
        swimlanes,
        events,
        commands,
        views,
        projections,
        queries,
        automations,
        slices,
    };
    proof {
        if model_error(y) is None && parsed_names_distinct(y) {
            assert(model_converted(out, y));
            lemma_converted_names_distinct(out, y);
        }
    }
    Ok(out)
}

} // verus!
