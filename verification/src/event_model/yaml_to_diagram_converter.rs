//! Conversion from a validated YAML model to a diagram.
//!
//! Entities get ids made of their kind and name (`event_UserCreated`,
//! `command_CreateUser`, `view_LoginScreen`, ...). Each swimlane lists the
//! ids of the entities defined in it, kind by kind (events, commands, views,
//! projections, queries, automations), each kind in the model's order. Each
//! YAML slice becomes a diagram slice 300 units to the right of the one
//! before it, holding every event and command and the slice's connections.

use crate::event_model::diagram::{
    Connector, DiagramMetadata, DiagramTitle, EventModelDiagram, HorizontalPosition,
    Slice as DiagramSlice, SliceBoundaries, SliceId, SliceName as DiagramSliceName,
    Swimlane as DiagramSwimlane, SwimlaneId as DiagramSwimlaneId, SwimlaneName as DiagramSwimlaneName,
    SwimlanePosition,
};
use crate::event_model::entities::{
    Actor, Command, CommandName, EntityId, Event, EventDataField, EventName, EventTimestamp,
    FieldDefinition, FieldName, FieldType, PayloadField, PlaceholderValue, TestAction, TestEvent,
    TestScenario, TestScenarioName,
};
use crate::event_model::registry::{Empty, EntityRegistry};
use crate::event_model::yaml_types as yaml;
use crate::infrastructure::types::{
    is_event_name, EventName as SafeEventName, NonEmpty, NonEmptyString, NonNegativeInt,
};
use vstd::prelude::*;

verus! {

broadcast use crate::infrastructure::types::lemma_non_empty_len;

/// Errors that can occur during YAML to diagram conversion.
#[derive(Debug)]
pub enum ConversionError {
    /// An entity referenced in a slice was not found.
    UnknownEntity(String),
    /// A swimlane referenced by an entity was not found.
    UnknownSwimlane(String),
    /// Failed to parse an entity reference.
    InvalidReference(String),
}

/// The content of a `ConversionError`.
pub enum ConversionErrorModel {
    UnknownEntity(Seq<char>),
    UnknownSwimlane(Seq<char>),
    InvalidReference(Seq<char>),
}

impl View for ConversionError {
    type V = ConversionErrorModel;

    open spec fn view(&self) -> ConversionErrorModel {
        match self {
            ConversionError::UnknownEntity(s) => ConversionErrorModel::UnknownEntity(s@),
            ConversionError::UnknownSwimlane(s) => ConversionErrorModel::UnknownSwimlane(s@),
            ConversionError::InvalidReference(s) => ConversionErrorModel::InvalidReference(s@),
        }
    }
}

impl ConversionError {
    /// The error message.
    pub fn message(&self) -> (r: String)
        ensures
            r@ == match self@ {
                ConversionErrorModel::UnknownEntity(s) => "Unknown entity in slice: "@ + s,
                ConversionErrorModel::UnknownSwimlane(s) => "Unknown swimlane: "@ + s,
                ConversionErrorModel::InvalidReference(s) => "Invalid entity reference: "@ + s,
            },
    {
        let (mut m, s) = match self {
            ConversionError::UnknownEntity(s) => ("Unknown entity in slice: ".to_owned(), s),
            ConversionError::UnknownSwimlane(s) => ("Unknown swimlane: ".to_owned(), s),
            ConversionError::InvalidReference(s) => ("Invalid entity reference: ".to_owned(), s),
        };
        m.append(s.as_str());
        m
    }
}

// ---------------------------------------------------------------------------
// What the conversion gives
// ---------------------------------------------------------------------------

/// The ids of the swimlanes, in order.
pub open spec fn lane_ids(lanes: Seq<yaml::Swimlane>) -> Seq<Seq<char>> {
    lanes.map_values(|s: yaml::Swimlane| s.id@)
}

/// The display name of the first swimlane with id `id`.
pub open spec fn lane_name_of(lanes: Seq<yaml::Swimlane>, id: Seq<char>) -> Seq<char>
    decreases lanes.len(),
{
    if lanes.len() == 0 {
        "User"@
    } else if lanes[0].id@ == id {
        lanes[0].name@
    } else {
        lane_name_of(lanes.drop_first(), id)
    }
}

/// The error that an event definition gives: its swimlane must exist and
/// its name must start with an ASCII uppercase letter.
pub open spec fn event_error(e: (yaml::EventName, yaml::EventDefinition), lanes: Seq<Seq<char>>) -> Option<
    ConversionErrorModel,
> {
    if !lanes.contains(e.1.swimlane@) {
        Some(ConversionErrorModel::UnknownSwimlane(e.1.swimlane@))
    } else if !is_event_name(e.0@) {
        Some(ConversionErrorModel::InvalidReference("Invalid event name: "@ + e.0@))
    } else {
        None
    }
}

/// The error of the first event definition that gives one.
pub open spec fn events_error(es: Seq<(yaml::EventName, yaml::EventDefinition)>, lanes: Seq<Seq<char>>) -> Option<
    ConversionErrorModel,
>
    decreases es.len(),
{
    if es.len() == 0 {
        None
    } else {
        match event_error(es[0], lanes) {
            Some(err) => Some(err),
            None => events_error(es.drop_first(), lanes),
        }
    }
}

/// The error that a command definition gives: its swimlane must exist.
pub open spec fn command_error(c: (yaml::CommandName, yaml::CommandDefinition), lanes: Seq<Seq<char>>) -> Option<
    ConversionErrorModel,
> {
    if !lanes.contains(c.1.swimlane@) {
        Some(ConversionErrorModel::UnknownSwimlane(c.1.swimlane@))
    } else {
        None
    }
}

/// The error of the first command definition that gives one.
pub open spec fn commands_error(cs: Seq<(yaml::CommandName, yaml::CommandDefinition)>, lanes: Seq<Seq<char>>) -> Option<
    ConversionErrorModel,
>
    decreases cs.len(),
{
    if cs.len() == 0 {
        None
    } else {
        match command_error(cs[0], lanes) {
            Some(err) => Some(err),
            None => commands_error(cs.drop_first(), lanes),
        }
    }
}

/// Every event of the command's test scenarios has a valid event name.
pub open spec fn test_events_named(c: yaml::CommandDefinition) -> bool {
    forall|i: int| #![trigger c.tests@[i]] 0 <= i < c.tests@.len() ==> {
        &&& forall|j: int| 0 <= j < c.tests@[i].1.given@.len() ==> is_event_name(#[trigger] c.tests@[i].1.given@[j].name@)
        &&& forall|j: int| 0 <= j < c.tests@[i].1.expected_events().len() ==> is_event_name(#[trigger] c.tests@[i].1.expected_events()[j].name@)
    }
}

/// The commands that are converted (those up to the first error) have test
/// events with valid names.
pub open spec fn commands_convertible(cs: Seq<(yaml::CommandName, yaml::CommandDefinition)>, lanes: Seq<Seq<char>>) -> bool {
    forall|i: int| #![trigger cs[i]]
        0 <= i < cs.len() && commands_error(cs.take(i), lanes) is None && command_error(cs[i], lanes) is None
            ==> test_events_named(cs[i].1)
}

/// Field values carried over one for one.
pub open spec fn placeholders_converted(
    out: Seq<(FieldName, PlaceholderValue)>,
    inp: Seq<(yaml::FieldName, yaml::PlaceholderValue)>,
) -> bool {
    &&& out.len() == inp.len()
    &&& forall|k: int| 0 <= k < inp.len() ==> (#[trigger] out[k]).0@ == inp[k].0@ && out[k].1@ == inp[k].1@
}

/// Test events carried over one for one.
pub open spec fn test_events_converted(out: Seq<TestEvent>, inp: Seq<yaml::TestEvent>) -> bool {
    &&& out.len() == inp.len()
    &&& forall|k: int| 0 <= k < inp.len() ==> (#[trigger] out[k]).name@ == inp[k].name@ && placeholders_converted(
        out[k].fields@,
        inp[k].fields@,
    )
}

/// Test actions carried over one for one.
pub open spec fn test_actions_converted(out: Seq<TestAction>, inp: Seq<yaml::TestAction>) -> bool {
    &&& out.len() == inp.len()
    &&& forall|k: int| 0 <= k < inp.len() ==> (#[trigger] out[k]).name@ == inp[k].name@ && placeholders_converted(
        out[k].fields@,
        inp[k].fields@,
    )
}

/// A test scenario carried over.
pub open spec fn scenario_converted(out: TestScenario, inp: yaml::TestScenario) -> bool {
    &&& test_events_converted(out.given@, inp.given@)
    &&& test_actions_converted(out.when@, inp.when@)
    &&& test_events_converted(out.expected_events(), inp.expected_events())
}

/// The payload of a command: the names of its data fields, or `payload`
/// when it has none.
pub open spec fn payload_names(c: yaml::CommandDefinition) -> Seq<Seq<char>> {
    if c.data@.len() == 0 {
        seq!["payload"@]
    } else {
        c.data@.map_values(|f: (yaml::FieldName, yaml::FieldDefinition)| f.0@)
    }
}

/// A command definition converted: id `command_<name>`, the name of its
/// swimlane as actor, its payload, data schema and test scenarios.
pub open spec fn command_converted(
    out: Command,
    c: (yaml::CommandName, yaml::CommandDefinition),
    lanes: Seq<yaml::Swimlane>,
) -> bool {
    &&& out.id@ == "command_"@ + c.0@
    &&& out.name@ == c.0@
    &&& out.actor@ == lane_name_of(lanes, c.1.swimlane@)
    &&& out.payload@.map_values(|p: PayloadField| p@) == payload_names(c.1)
    &&& (c.1.data@.len() == 0 <==> out.data_schema is None)
    &&& out.data_schema matches Some(schema) ==> {
        &&& schema@.len() == c.1.data@.len()
        &&& forall|k: int| 0 <= k < c.1.data@.len() ==> {
            &&& (#[trigger] schema@[k]).0@ == c.1.data@[k].0@
            &&& schema@[k].1.field_type@ == c.1.data@[k].1.field_type@
            &&& schema@[k].1.stream_id == c.1.data@[k].1.stream_id
            &&& schema@[k].1.generated == c.1.data@[k].1.generated
        }
    }
    &&& (c.1.tests@.len() == 0 <==> out.test_scenarios is None)
    &&& out.test_scenarios matches Some(tests) ==> {
        &&& tests@.len() == c.1.tests@.len()
        &&& forall|k: int| 0 <= k < c.1.tests@.len() ==> (#[trigger] tests@[k]).0@ == c.1.tests@[k].0@
            && scenario_converted(tests@[k].1, c.1.tests@[k].1)
    }
    &&& out.documentation is None
}

/// The data of an event: the names of its fields, or `data` when it has
/// none.
pub open spec fn data_names(e: yaml::EventDefinition) -> Seq<Seq<char>> {
    if e.data@.len() == 0 {
        seq!["data"@]
    } else {
        e.data@.map_values(|f: (yaml::FieldName, yaml::FieldDefinition)| f.0@)
    }
}

/// An event definition converted: id `event_<name>`, timestamp its
/// position among the events, and its data fields.
pub open spec fn event_converted(out: Event, e: (yaml::EventName, yaml::EventDefinition), i: int) -> bool {
    &&& out.id@ == "event_"@ + e.0@
    &&& out.name@ == e.0@
    &&& out.timestamp@ == i as u32
    &&& out.data@.map_values(|f: EventDataField| f@) == data_names(e.1)
    &&& out.documentation is None
}

/// The ids, with `prefix`, of the named entities that belong to swimlane
/// `lane`, in order.
pub open spec fn members(entries: Seq<(Seq<char>, Seq<char>)>, prefix: Seq<char>, lane: Seq<char>) -> Seq<Seq<char>>
    decreases entries.len(),
{
    if entries.len() == 0 {
        Seq::empty()
    } else {
        let rest = members(entries.drop_last(), prefix, lane);
        if entries.last().1 == lane {
            rest.push(prefix + entries.last().0)
        } else {
            rest
        }
    }
}

/// (name, swimlane) of each event.
pub open spec fn event_entries(es: Seq<(yaml::EventName, yaml::EventDefinition)>) -> Seq<(Seq<char>, Seq<char>)> {
    es.map_values(|e: (yaml::EventName, yaml::EventDefinition)| (e.0@, e.1.swimlane@))
}

/// (name, swimlane) of each command.
pub open spec fn command_entries(cs: Seq<(yaml::CommandName, yaml::CommandDefinition)>) -> Seq<(Seq<char>, Seq<char>)> {
    cs.map_values(|e: (yaml::CommandName, yaml::CommandDefinition)| (e.0@, e.1.swimlane@))
}

/// (name, swimlane) of each view.
pub open spec fn view_entries(vs: Seq<(yaml::ViewName, yaml::ViewDefinition)>) -> Seq<(Seq<char>, Seq<char>)> {
    vs.map_values(|e: (yaml::ViewName, yaml::ViewDefinition)| (e.0@, e.1.swimlane@))
}

/// (name, swimlane) of each projection.
pub open spec fn projection_entries(ps: Seq<(yaml::ProjectionName, yaml::ProjectionDefinition)>) -> Seq<
    (Seq<char>, Seq<char>),
> {
    ps.map_values(|e: (yaml::ProjectionName, yaml::ProjectionDefinition)| (e.0@, e.1.swimlane@))
}

/// (name, swimlane) of each query.
pub open spec fn query_entries(qs: Seq<(yaml::QueryName, yaml::QueryDefinition)>) -> Seq<(Seq<char>, Seq<char>)> {
    qs.map_values(|e: (yaml::QueryName, yaml::QueryDefinition)| (e.0@, e.1.swimlane@))
}

/// (name, swimlane) of each automation.
pub open spec fn automation_entries(az: Seq<(yaml::AutomationName, yaml::AutomationDefinition)>) -> Seq<
    (Seq<char>, Seq<char>),
> {
    az.map_values(|e: (yaml::AutomationName, yaml::AutomationDefinition)| (e.0@, e.1.swimlane@))
}

/// The ids of the entities of swimlane `lane`: events, commands, views,
/// projections, queries, then automations.
pub open spec fn lane_members(m: yaml::YamlEventModel, lane: Seq<char>) -> Seq<Seq<char>> {
    members(event_entries(m.events@), "event_"@, lane) + members(command_entries(m.commands@), "command_"@, lane)
        + members(view_entries(m.views@), "view_"@, lane) + members(
        projection_entries(m.projections@),
        "projection_"@,
        lane,
    ) + members(query_entries(m.queries@), "query_"@, lane) + members(
        automation_entries(m.automations@),
        "automation_"@,
        lane,
    )
}

/// Swimlane `i` of the diagram stands for YAML swimlane `s`.
pub open spec fn lane_converted(out: DiagramSwimlane, s: yaml::Swimlane, i: int, m: yaml::YamlEventModel) -> bool {
    &&& out.id@ == s.id@
    &&& out.name@ == s.name@
    &&& out.position@ == i as u32
    &&& out.entities@.map_values(|e: EntityId| e@) == lane_members(m, s.id@)
}

/// The characters of `s` before its first `.` (all of them if none).
pub open spec fn before_dot(s: Seq<char>) -> Seq<char>
    decreases s.len(),
{
    if s.len() == 0 {
        s
    } else if s[0] == '.' {
        Seq::empty()
    } else {
        seq![s[0]] + before_dot(s.drop_first())
    }
}

/// The entity id a reference stands for; a view path stands for its view.
pub open spec fn reference_id(r: yaml::EntityReference) -> Seq<char> {
    match r {
        yaml::EntityReference::Event(n) => "event_"@ + n@,
        yaml::EntityReference::Command(n) => "command_"@ + n@,
        yaml::EntityReference::View(p) => "view_"@ + before_dot(p@),
        yaml::EntityReference::Projection(n) => "projection_"@ + n@,
        yaml::EntityReference::Query(n) => "query_"@ + n@,
        yaml::EntityReference::Automation(n) => "automation_"@ + n@,
    }
}

/// Connectors for the connections, one for one, without labels.
pub open spec fn connectors_converted(out: Seq<Connector>, inp: Seq<yaml::Connection>) -> bool {
    &&& out.len() == inp.len()
    &&& forall|k: int| 0 <= k < inp.len() ==> {
        &&& (#[trigger] out[k]).from@ == reference_id(inp[k].from)
        &&& out[k].to@ == reference_id(inp[k].to)
        &&& out[k].label is None
    }
}

/// The ids of a list of entities.
pub open spec fn ids_of(ids: Seq<EntityId>) -> Seq<Seq<char>> {
    ids.map_values(|id: EntityId| id@)
}

/// The slices of the diagram for the YAML slices and entity ids: one
/// "Default" slice (0 to 100) when either is empty, else slice `i` from
/// `300 i` to `300 i + 280`, named after its YAML slice, holding every
/// entity and its connections.
pub open spec fn slices_converted(
    out: Seq<DiagramSlice>,
    inp: Seq<(yaml::SliceName, NonEmpty<yaml::Connection>)>,
    ids: Seq<Seq<char>>,
) -> bool {
    if inp.len() == 0 || ids.len() == 0 {
        &&& out.len() == 1
        &&& out[0].id@ == "default"@
        &&& out[0].name@ == "Default"@
        &&& out[0].boundaries.start_x@ == 0
        &&& out[0].boundaries.end_x@ == 100
        &&& ids_of(out[0].entities@) == if ids.len() == 0 { seq!["dummy"@] } else { seq![ids[0]] }
        &&& out[0].connections@.len() == 0
        &&& out[0].acceptance_criteria is None
    } else {
        &&& out.len() == inp.len()
        &&& forall|k: int| 0 <= k < inp.len() ==> {
            &&& (#[trigger] out[k]).id@ == inp[k].0@
            &&& out[k].name@ == inp[k].0@
            &&& out[k].boundaries.start_x@ == (k * 300) as u32
            &&& out[k].boundaries.end_x@ == (k * 300 + 280) as u32
            &&& ids_of(out[k].entities@) == ids
            &&& connectors_converted(out[k].connections@, inp[k].1@)
            &&& out[k].acceptance_criteria is None
        }
    }
}

/// The ids of the events, then of the commands.
pub open spec fn event_and_command_ids(m: yaml::YamlEventModel) -> Seq<Seq<char>> {
    event_entries(m.events@).map_values(|e: (Seq<char>, Seq<char>)| "event_"@ + e.0) + command_entries(
        m.commands@,
    ).map_values(|e: (Seq<char>, Seq<char>)| "command_"@ + e.0)
}

/// The error that converting `m` gives, if any: the first event error,
/// then the first command error.
pub open spec fn diagram_error(m: yaml::YamlEventModel) -> Option<ConversionErrorModel> {
    match events_error(m.events@, lane_ids(m.swimlanes@)) {
        Some(err) => Some(err),
        None => commands_error(m.commands@, lane_ids(m.swimlanes@)),
    }
}

/// `d` is the diagram of `m`.
pub open spec fn diagram_of(d: EventModelDiagram<Empty, Empty, Empty, Empty, Empty, Empty>, m: yaml::YamlEventModel) -> bool {
    &&& d.metadata.title@ == m.workflow@
    &&& d.metadata.description is None
    &&& d.swimlanes@.len() == m.swimlanes@.len()
    &&& forall|i: int| 0 <= i < m.swimlanes@.len() ==> lane_converted(#[trigger] d.swimlanes@[i], m.swimlanes@[i], i, m)
    &&& d.entities.is_empty_registry()
    &&& slices_converted(d.slices@, m.slices@, event_and_command_ids(m))
    &&& d.connectors@.len() == 0
}

// ---------------------------------------------------------------------------
// The conversion
// ---------------------------------------------------------------------------

/// The id `prefix` followed by `name`.
fn prefixed_id(prefix: &str, name: &str) -> (r: EntityId)
    requires
        prefix@.len() > 0,
    ensures
        r@ == prefix@ + name@,
{
    let mut s = prefix.to_owned();
    s.append(name);
    EntityId::new(NonEmptyString::parse(s).unwrap())
}

/// A non-empty string holding a literal.
fn literal(s: &str) -> (r: NonEmptyString)
    requires
        s@.len() > 0,
    ensures
        r@ == s@,
{
    NonEmptyString::parse(s.to_owned()).unwrap()
}

/// The text of a name.
fn text_of(s: &NonEmptyString) -> (r: String)
    ensures
        r@ == s@,
{
    s.as_str().to_owned()
}

/// Whether some swimlane has id `id`.
fn lane_exists(lanes: &NonEmpty<yaml::Swimlane>, id: &yaml::SwimlaneId) -> (r: bool)
    ensures
        r == lane_ids(lanes@).contains(id@),
{
    let all = lanes.iter();
    let wanted = id.clone().into_inner();
    let n = all.len();
    for i in 0..n
        invariant
            n == all@.len(),
            all@.len() == lanes@.len(),
            forall|k: int| 0 <= k < all@.len() ==> *all@[k] == lanes@[k],
            wanted@ == id@,
            forall|k: int| 0 <= k < i ==> lanes@[k].id@ != id@,
    {
        let candidate = all[i].id.clone().into_inner();
        if candidate.same_as(&wanted) {
            assert(lane_ids(lanes@)[i as int] == id@);
            return true;
        }
    }
    assert(!lane_ids(lanes@).contains(id@)) by {
        if lane_ids(lanes@).contains(id@) {
            let k = choose|k: int| 0 <= k < lane_ids(lanes@).len() && lane_ids(lanes@)[k] == id@;
            assert(lanes@[k].id@ == id@);
        }
    }
    false
}

/// The display name of the first swimlane with id `id`, or `User`.
fn actor_for(lanes: &NonEmpty<yaml::Swimlane>, id: &yaml::SwimlaneId) -> (r: NonEmptyString)
    ensures
        r@ == lane_name_of(lanes@, id@),
{
    let all = lanes.iter();
    let wanted = id.clone().into_inner();
    let n = all.len();
    assert(lanes@.skip(0) =~= lanes@);
    for i in 0..n
        invariant
            n == all@.len(),
            all@.len() == lanes@.len(),
            forall|k: int| 0 <= k < all@.len() ==> *all@[k] == lanes@[k],
            wanted@ == id@,
            lane_name_of(lanes@, id@) == lane_name_of(lanes@.skip(i as int), id@),
    {
        let ghost rest = lanes@.skip(i as int);
        assert(rest[0] == lanes@[i as int]);
        assert(rest.drop_first() =~= lanes@.skip(i + 1));
        let candidate = all[i].id.clone().into_inner();
        if candidate.same_as(&wanted) {
            return all[i].name.clone().into_inner();
        }
    }
    assert(lanes@.skip(n as int) =~= Seq::<yaml::Swimlane>::empty());
    proof {
        reveal_strlit("User");
    }
    literal("User")
}

/// Converts the events: each needs a known swimlane and a name that
/// starts with an ASCII uppercase letter; the first that fails is reported.
fn convert_events(
    yaml_events: &Vec<(yaml::EventName, yaml::EventDefinition)>,
    swimlanes: &NonEmpty<yaml::Swimlane>,
) -> (r: Result<Vec<Event>, ConversionError>)
    requires
        yaml_events@.len() <= u32::MAX + 1,
    ensures
        r is Err <==> events_error(yaml_events@, lane_ids(swimlanes@)) is Some,
        r matches Err(e) ==> events_error(yaml_events@, lane_ids(swimlanes@)) == Some(e@),
        r matches Ok(v) ==> v@.len() == yaml_events@.len() && forall|i: int|
            0 <= i < v@.len() ==> event_converted(#[trigger] v@[i], yaml_events@[i], i),
{
    let ghost lanes = lane_ids(swimlanes@);
    let ghost es = yaml_events@;
    let mut events: Vec<Event> = Vec::new();
    let n = yaml_events.len();
    assert(es.skip(0) =~= es);
    for i in 0..n
        invariant
            n == es.len(),
            es == yaml_events@,
            n <= u32::MAX + 1,
            lanes == lane_ids(swimlanes@),
            events_error(es, lanes) == events_error(es.skip(i as int), lanes),
            events@.len() == i,
            forall|k: int| 0 <= k < i ==> event_converted(#[trigger] events@[k], es[k], k),
    {
        let (name, def) = &yaml_events[i];
        let ghost rest = es.skip(i as int);
        assert(rest[0] == es[i as int]);
        assert(rest.drop_first() =~= es.skip(i + 1));
        if !lane_exists(swimlanes, &def.swimlane) {
            return Err(ConversionError::UnknownSwimlane(text_of(&def.swimlane.clone().into_inner())));
        }
        let name_text = name.clone().into_inner();
        let safe_name = match SafeEventName::parse(text_of(&name_text)) {
            Ok(v) => v,
            Err(_) => {
                let mut message = "Invalid event name: ".to_owned();
                message.append(name_text.as_str());
                return Err(ConversionError::InvalidReference(message));
            },
        };
        let mut fields: Vec<EventDataField> = Vec::new();
        let dn = def.data.len();
        if dn == 0 {
            proof {
                reveal_strlit("data");
            }
            fields.push(EventDataField::new(literal("data")));
        } else {
            for j in 0..dn
                invariant
                    dn == def.data@.len(),
                    fields@.len() == j,
                    forall|k: int| 0 <= k < j ==> (#[trigger] fields@[k])@ == def.data@[k].0@,
            {
                fields.push(EventDataField::new(def.data[j].0.clone().into_inner()));
            }
        }
        assert(fields@.map_values(|f: EventDataField| f@) =~= data_names(*def));
        let first = fields.remove(0);
        let data = NonEmpty::from_head_and_tail(first, fields);
        assert(data@.map_values(|f: EventDataField| f@) =~= data_names(*def));
        proof {
            reveal_strlit("event_");
        }
        let event = Event {
            id: prefixed_id("event_", name_text.as_str()),
            name: EventName::new(safe_name),
            timestamp: EventTimestamp::new(NonNegativeInt::new(#[verifier::truncate] (i as u32))),
            data,
            documentation: None,
        };
        events.push(event);
    }
    Ok(events)
}

/// Field values carried over to the entity types.
fn convert_placeholders(fields: &Vec<(yaml::FieldName, yaml::PlaceholderValue)>) -> (r: Vec<
    (FieldName, PlaceholderValue),
>)
    ensures
        placeholders_converted(r@, fields@),
{
    let mut out: Vec<(FieldName, PlaceholderValue)> = Vec::new();
    let n = fields.len();
    for i in 0..n
        invariant
            n == fields@.len(),
            out@.len() == i,
            forall|k: int| 0 <= k < i ==> (#[trigger] out@[k]).0@ == fields@[k].0@ && out@[k].1@ == fields@[k].1@,
    {
        let (name, value) = &fields[i];
        out.push((FieldName::new(name.clone().into_inner()), PlaceholderValue::new(value.clone().into_inner())));
    }
    out
}

/// A test event carried over; its name must be a valid event name.
fn convert_test_event(event: &yaml::TestEvent) -> (r: TestEvent)
    requires
        is_event_name(event.name@),
    ensures
        r.name@ == event.name@,
        placeholders_converted(r.fields@, event.fields@),
{
    let name = SafeEventName::parse(text_of(&event.name.clone().into_inner())).unwrap();
    TestEvent { name: EventName::new(name), fields: convert_placeholders(&event.fields) }
}

/// A test action carried over.
fn convert_test_action(action: &yaml::TestAction) -> (r: TestAction)
    ensures
        r.name@ == action.name@,
        placeholders_converted(r.fields@, action.fields@),
{
    TestAction { name: CommandName::new(action.name.clone().into_inner()), fields: convert_placeholders(&action.fields) }
}

/// Test events, given by reference, carried over.
fn convert_test_event_refs(events: &Vec<&yaml::TestEvent>) -> (r: Vec<TestEvent>)
    requires
        forall|j: int| 0 <= j < events@.len() ==> is_event_name(#[trigger] events@[j].name@),
    ensures
        r@.len() == events@.len(),
        forall|k: int| 0 <= k < events@.len() ==> (#[trigger] r@[k]).name@ == events@[k].name@ && placeholders_converted(
            r@[k].fields@,
            events@[k].fields@,
        ),
{
    let mut out: Vec<TestEvent> = Vec::new();
    let n = events.len();
    for i in 0..n
        invariant
            n == events@.len(),
            forall|j: int| 0 <= j < events@.len() ==> is_event_name(#[trigger] events@[j].name@),
            out@.len() == i,
            forall|k: int| 0 <= k < i ==> (#[trigger] out@[k]).name@ == events@[k].name@ && placeholders_converted(
                out@[k].fields@,
                events@[k].fields@,
            ),
    {
        assert(is_event_name(events@[i as int].name@));
        out.push(convert_test_event(events[i]));
    }
    out
}

/// References to the elements of a list.
fn refs_of<T>(v: &Vec<T>) -> (r: Vec<&T>)
    ensures
        r@.len() == v@.len(),
        forall|k: int| 0 <= k < v@.len() ==> *r@[k] == v@[k],
{
    let mut r: Vec<&T> = Vec::new();
    let n = v.len();
    for i in 0..n
        invariant
            n == v@.len(),
            r@.len() == i,
            forall|k: int| 0 <= k < i ==> *r@[k] == v@[k],
    {
        r.push(&v[i]);
    }
    r
}

/// A list that holds at least one element as a `NonEmpty`.
fn non_empty_of<T>(v: Vec<T>) -> (r: NonEmpty<T>)
    requires
        v@.len() > 0,
    ensures
        r@ == v@,
{
    let mut v = v;
    let ghost all = v@;
    let head = v.remove(0);
    let r = NonEmpty::from_head_and_tail(head, v);
    assert(r@ =~= all);
    r
}

/// A command's test scenario carried over.
fn convert_scenario(s: &yaml::TestScenario) -> (r: TestScenario)
    requires
        forall|j: int| 0 <= j < s.given@.len() ==> is_event_name(#[trigger] s.given@[j].name@),
        forall|j: int| 0 <= j < s.expected_events().len() ==> is_event_name(#[trigger] s.expected_events()[j].name@),
    ensures
        scenario_converted(r, *s),
{
    let given_refs = refs_of(&s.given);
    let given = convert_test_event_refs(&given_refs);
    let when_refs = s.when.iter();
    let mut when_list: Vec<TestAction> = Vec::new();
    let wn = when_refs.len();
    for i in 0..wn
        invariant
            wn == when_refs@.len(),
            when_refs@.len() == s.when@.len(),
            forall|k: int| 0 <= k < when_refs@.len() ==> *when_refs@[k] == s.when@[k],
            when_list@.len() == i,
            forall|k: int| 0 <= k < i ==> (#[trigger] when_list@[k]).name@ == s.when@[k].name@ && placeholders_converted(
                when_list@[k].fields@,
                s.when@[k].fields@,
            ),
    {
        when_list.push(convert_test_action(when_refs[i]));
    }
    let when = non_empty_of(when_list);
    let then_refs = s.expected().iter();
    let expected = non_empty_of(convert_test_event_refs(&then_refs));
    TestScenario { given, when, then: expected }
}

/// Converts one command (whose swimlane is known).
fn convert_command(
    name: &yaml::CommandName,
    def: &yaml::CommandDefinition,
    swimlanes: &NonEmpty<yaml::Swimlane>,
) -> (r: Command)
    requires
        test_events_named(*def),
    ensures
        command_converted(r, (*name, *def), swimlanes@),
{
    let name_text = name.clone().into_inner();
    let dn = def.data.len();
    let mut payload_fields: Vec<PayloadField> = Vec::new();
    if dn == 0 {
        proof {
            reveal_strlit("payload");
        }
        payload_fields.push(PayloadField::new(literal("payload")));
    } else {
        for j in 0..dn
            invariant
                dn == def.data@.len(),
                payload_fields@.len() == j,
                forall|k: int| 0 <= k < j ==> (#[trigger] payload_fields@[k])@ == def.data@[k].0@,
        {
            payload_fields.push(PayloadField::new(def.data[j].0.clone().into_inner()));
        }
    }
    assert(payload_fields@.map_values(|p: PayloadField| p@) =~= payload_names(*def));
    let payload = non_empty_of(payload_fields);
    let data_schema = if dn == 0 {
        None
    } else {
        let mut schema: Vec<(FieldName, FieldDefinition)> = Vec::new();
        for j in 0..dn
            invariant
                dn == def.data@.len(),
                schema@.len() == j,
                forall|k: int| 0 <= k < j ==> {
                    &&& (#[trigger] schema@[k]).0@ == def.data@[k].0@
                    &&& schema@[k].1.field_type@ == def.data@[k].1.field_type@
                    &&& schema@[k].1.stream_id == def.data@[k].1.stream_id
                    &&& schema@[k].1.generated == def.data@[k].1.generated
                },
        {
            let (field_name, field_def) = &def.data[j];
            schema.push(
                (
                    FieldName::new(field_name.clone().into_inner()),
                    FieldDefinition {
                        field_type: FieldType::new(field_def.field_type.clone().into_inner()),
                        stream_id: field_def.stream_id,
                        generated: field_def.generated,
                    },
                ),
            );
        }
        Some(schema)
    };
    let tn = def.tests.len();
    let test_scenarios = if tn == 0 {
        None
    } else {
        let mut scenarios: Vec<(TestScenarioName, TestScenario)> = Vec::new();
        for j in 0..tn
            invariant
                tn == def.tests@.len(),
                test_events_named(*def),
                scenarios@.len() == j,
                forall|k: int| 0 <= k < j ==> (#[trigger] scenarios@[k]).0@ == def.tests@[k].0@ && scenario_converted(
                    scenarios@[k].1,
                    def.tests@[k].1,
                ),
        {
            let (scenario_name, scenario) = &def.tests[j];
            assert(def.tests@[j as int] == (*scenario_name, *scenario));
            scenarios.push((TestScenarioName::new(scenario_name.clone().into_inner()), convert_scenario(scenario)));
        }
        Some(scenarios)
    };
    proof {
        reveal_strlit("command_");
    }
    Command {
        id: prefixed_id("command_", name_text.as_str()),
        name: CommandName::new(name_text),
        actor: Actor::new(actor_for(swimlanes, &def.swimlane)),
        payload,
        data_schema,
        test_scenarios,
        documentation: None,
    }
}

/// Converts the commands: each needs a known swimlane; the first that does
/// not have one is reported.
fn convert_commands(
    yaml_commands: &Vec<(yaml::CommandName, yaml::CommandDefinition)>,
    swimlanes: &NonEmpty<yaml::Swimlane>,
) -> (r: Result<Vec<Command>, ConversionError>)
    requires
        commands_convertible(yaml_commands@, lane_ids(swimlanes@)),
    ensures
        r is Err <==> commands_error(yaml_commands@, lane_ids(swimlanes@)) is Some,
        r matches Err(e) ==> commands_error(yaml_commands@, lane_ids(swimlanes@)) == Some(e@),
        r matches Ok(v) ==> v@.len() == yaml_commands@.len() && forall|i: int|
            0 <= i < v@.len() ==> command_converted(#[trigger] v@[i], yaml_commands@[i], swimlanes@),
{
    let ghost lanes = lane_ids(swimlanes@);
    let ghost cs = yaml_commands@;
    let mut commands: Vec<Command> = Vec::new();
    let n = yaml_commands.len();
    assert(cs.skip(0) =~= cs);
    assert(cs.take(0) =~= Seq::<(yaml::CommandName, yaml::CommandDefinition)>::empty());
    for i in 0..n
        invariant
            n == cs.len(),
            cs == yaml_commands@,
            lanes == lane_ids(swimlanes@),
            commands_convertible(cs, lanes),
            commands_error(cs, lanes) == commands_error(cs.skip(i as int), lanes),
            commands_error(cs.take(i as int), lanes) is None,
            commands@.len() == i,
            forall|k: int| 0 <= k < i ==> command_converted(#[trigger] commands@[k], cs[k], swimlanes@),
    {
        let (name, def) = &yaml_commands[i];
        let ghost rest = cs.skip(i as int);
        assert(rest[0] == cs[i as int]);
        assert(rest.drop_first() =~= cs.skip(i + 1));
        if !lane_exists(swimlanes, &def.swimlane) {
            return Err(ConversionError::UnknownSwimlane(text_of(&def.swimlane.clone().into_inner())));
        }
        assert(test_events_named(cs[i as int].1));
        proof {
            lemma_commands_error_extend(cs, lanes, i as int);
        }
        commands.push(convert_command(name, def, swimlanes));
    }
    Ok(commands)
}

proof fn lemma_commands_error_extend(
    cs: Seq<(yaml::CommandName, yaml::CommandDefinition)>,
    lanes: Seq<Seq<char>>,
    i: int,
)
    requires
        0 <= i < cs.len(),
        commands_error(cs.take(i), lanes) is None,
        command_error(cs[i], lanes) is None,
    ensures
        commands_error(cs.take(i + 1), lanes) is None,
    decreases i,
{
    if i == 0 {
        assert(cs.take(1)[0] == cs[0]);
        assert(cs.take(1).drop_first() =~= Seq::<(yaml::CommandName, yaml::CommandDefinition)>::empty());
        assert(commands_error(cs.take(1).drop_first(), lanes) is None);
    } else {
        assert(cs.take(i)[0] == cs[0]);
        assert(cs.take(i + 1)[0] == cs[0]);
        let rest = cs.drop_first();
        assert(cs.take(i).drop_first() =~= rest.take(i - 1));
        assert(cs.take(i + 1).drop_first() =~= rest.take(i));
        assert(rest[i - 1] == cs[i]);
        assert(command_error(cs[0], lanes) is None);
        assert(commands_error(rest.take(i - 1), lanes) is None);
        lemma_commands_error_extend(rest, lanes, i - 1);
        assert(commands_error(rest.take(i), lanes) is None);
    }
}

proof fn lemma_members_step(entries: Seq<(Seq<char>, Seq<char>)>, prefix: Seq<char>, lane: Seq<char>, i: int)
    requires
        0 <= i < entries.len(),
    ensures
        members(entries.take(i + 1), prefix, lane) == if entries[i].1 == lane {
            members(entries.take(i), prefix, lane).push(prefix + entries[i].0)
        } else {
            members(entries.take(i), prefix, lane)
        },
{
    assert(entries.take(i + 1).drop_last() =~= entries.take(i));
}

/// Appends to `out` the ids, with `prefix`, of the entries whose swimlane
/// is `lane`.
fn push_members(out: &mut Vec<EntityId>, entries: &Vec<(String, String)>, prefix: &str, lane: &str)
    requires
        prefix@.len() > 0,
    ensures
        final(out)@.map_values(|e: EntityId| e@) == old(out)@.map_values(|e: EntityId| e@) + members(
            entries@.map_values(|e: (String, String)| (e.0@, e.1@)),
            prefix@,
            lane@,
        ),
{
    let ghost es = entries@.map_values(|e: (String, String)| (e.0@, e.1@));
    let ghost start = out@.map_values(|e: EntityId| e@);
    let n = entries.len();
    assert(es.take(0) =~= Seq::<(Seq<char>, Seq<char>)>::empty());
    for i in 0..n
        invariant
            n == entries@.len(),
            es == entries@.map_values(|e: (String, String)| (e.0@, e.1@)),
            prefix@.len() > 0,
            out@.map_values(|e: EntityId| e@) == start + members(es.take(i as int), prefix@, lane@),
    {
        let (name, swimlane) = &entries[i];
        proof {
            lemma_members_step(es, prefix@, lane@, i as int);
        }
        if crate::infrastructure::text::str_equal(swimlane.as_str(), lane) {
            let ghost before = out@;
            out.push(prefixed_id(prefix, name.as_str()));
            assert(out@.map_values(|e: EntityId| e@) =~= before.map_values(|e: EntityId| e@).push(prefix@ + name@));
        }
    }
    assert(es.take(n as int) =~= es);
}

/// (name, swimlane) text of each entry of a keyed list.
fn entries_of_events(v: &Vec<(yaml::EventName, yaml::EventDefinition)>) -> (r: Vec<(String, String)>)
    ensures
        r@.map_values(|e: (String, String)| (e.0@, e.1@)) == event_entries(v@),
{
    let mut r: Vec<(String, String)> = Vec::new();
    let n = v.len();
    for i in 0..n
        invariant
            n == v@.len(),
            r@.len() == i,
            forall|k: int| 0 <= k < i ==> (#[trigger] r@[k]).0@ == v@[k].0@ && r@[k].1@ == v@[k].1.swimlane@,
    {
        r.push((text_of(&v[i].0.clone().into_inner()), text_of(&v[i].1.swimlane.clone().into_inner())));
    }
    assert(r@.map_values(|e: (String, String)| (e.0@, e.1@)) =~= event_entries(v@));
    r
}

/// (name, swimlane) text of each command.
fn entries_of_commands(v: &Vec<(yaml::CommandName, yaml::CommandDefinition)>) -> (r: Vec<(String, String)>)
    ensures
        r@.map_values(|e: (String, String)| (e.0@, e.1@)) == command_entries(v@),
{
    let mut r: Vec<(String, String)> = Vec::new();
    let n = v.len();
    for i in 0..n
        invariant
            n == v@.len(),
            r@.len() == i,
            forall|k: int| 0 <= k < i ==> (#[trigger] r@[k]).0@ == v@[k].0@ && r@[k].1@ == v@[k].1.swimlane@,
    {
        r.push((text_of(&v[i].0.clone().into_inner()), text_of(&v[i].1.swimlane.clone().into_inner())));
    }
    assert(r@.map_values(|e: (String, String)| (e.0@, e.1@)) =~= command_entries(v@));
    r
}

/// (name, swimlane) text of each view.
fn entries_of_views(v: &Vec<(yaml::ViewName, yaml::ViewDefinition)>) -> (r: Vec<(String, String)>)
    ensures
        r@.map_values(|e: (String, String)| (e.0@, e.1@)) == view_entries(v@),
{
    let mut r: Vec<(String, String)> = Vec::new();
    let n = v.len();
    for i in 0..n
        invariant
            n == v@.len(),
            r@.len() == i,
            forall|k: int| 0 <= k < i ==> (#[trigger] r@[k]).0@ == v@[k].0@ && r@[k].1@ == v@[k].1.swimlane@,
    {
        r.push((text_of(&v[i].0.clone().into_inner()), text_of(&v[i].1.swimlane.clone().into_inner())));
    }
    assert(r@.map_values(|e: (String, String)| (e.0@, e.1@)) =~= view_entries(v@));
    r
}

/// (name, swimlane) text of each projection.
fn entries_of_projections(v: &Vec<(yaml::ProjectionName, yaml::ProjectionDefinition)>) -> (r: Vec<(String, String)>)
    ensures
        r@.map_values(|e: (String, String)| (e.0@, e.1@)) == projection_entries(v@),
{
    let mut r: Vec<(String, String)> = Vec::new();
    let n = v.len();
    for i in 0..n
        invariant
            n == v@.len(),
            r@.len() == i,
            forall|k: int| 0 <= k < i ==> (#[trigger] r@[k]).0@ == v@[k].0@ && r@[k].1@ == v@[k].1.swimlane@,
    {
        r.push((text_of(&v[i].0.clone().into_inner()), text_of(&v[i].1.swimlane.clone().into_inner())));
    }
    assert(r@.map_values(|e: (String, String)| (e.0@, e.1@)) =~= projection_entries(v@));
    r
}

/// (name, swimlane) text of each query.
fn entries_of_queries(v: &Vec<(yaml::QueryName, yaml::QueryDefinition)>) -> (r: Vec<(String, String)>)
    ensures
        r@.map_values(|e: (String, String)| (e.0@, e.1@)) == query_entries(v@),
{
    let mut r: Vec<(String, String)> = Vec::new();
    let n = v.len();
    for i in 0..n
        invariant
            n == v@.len(),
            r@.len() == i,
            forall|k: int| 0 <= k < i ==> (#[trigger] r@[k]).0@ == v@[k].0@ && r@[k].1@ == v@[k].1.swimlane@,
    {
        r.push((text_of(&v[i].0.clone().into_inner()), text_of(&v[i].1.swimlane.clone().into_inner())));
    }
    assert(r@.map_values(|e: (String, String)| (e.0@, e.1@)) =~= query_entries(v@));
    r
}

/// (name, swimlane) text of each automation.
fn entries_of_automations(v: &Vec<(yaml::AutomationName, yaml::AutomationDefinition)>) -> (r: Vec<(String, String)>)
    ensures
        r@.map_values(|e: (String, String)| (e.0@, e.1@)) == automation_entries(v@),
{
    let mut r: Vec<(String, String)> = Vec::new();
    let n = v.len();
    for i in 0..n
        invariant
            n == v@.len(),
            r@.len() == i,
            forall|k: int| 0 <= k < i ==> (#[trigger] r@[k]).0@ == v@[k].0@ && r@[k].1@ == v@[k].1.swimlane@,
    {
        r.push((text_of(&v[i].0.clone().into_inner()), text_of(&v[i].1.swimlane.clone().into_inner())));
    }
    assert(r@.map_values(|e: (String, String)| (e.0@, e.1@)) =~= automation_entries(v@));
    r
}

/// The diagram swimlanes: one per YAML swimlane, at its position, holding
/// the ids of the entities defined in it.
fn convert_swimlanes_with_entities(model: &yaml::YamlEventModel) -> (r: NonEmpty<DiagramSwimlane>)
    requires
        model.swimlanes@.len() <= u32::MAX + 1,
    ensures
        r@.len() == model.swimlanes@.len(),
        forall|i: int| 0 <= i < model.swimlanes@.len() ==> lane_converted(#[trigger] r@[i], model.swimlanes@[i], i, *model),
{
    let events = entries_of_events(&model.events);
    let commands = entries_of_commands(&model.commands);
    let views = entries_of_views(&model.views);
    let projections = entries_of_projections(&model.projections);
    let queries = entries_of_queries(&model.queries);
    let automations = entries_of_automations(&model.automations);
    let lanes = model.swimlanes.iter();
    let n = lanes.len();
    let mut out: Vec<DiagramSwimlane> = Vec::new();
    proof {
        reveal_strlit("event_");
        reveal_strlit("command_");
        reveal_strlit("view_");
        reveal_strlit("projection_");
        reveal_strlit("query_");
        reveal_strlit("automation_");
    }
    for i in 0..n
        invariant
            n == lanes@.len(),
            lanes@.len() == model.swimlanes@.len(),
            n <= u32::MAX + 1,
            forall|k: int| 0 <= k < lanes@.len() ==> *lanes@[k] == model.swimlanes@[k],
            events@.map_values(|e: (String, String)| (e.0@, e.1@)) == event_entries(model.events@),
            commands@.map_values(|e: (String, String)| (e.0@, e.1@)) == command_entries(model.commands@),
            views@.map_values(|e: (String, String)| (e.0@, e.1@)) == view_entries(model.views@),
            projections@.map_values(|e: (String, String)| (e.0@, e.1@)) == projection_entries(model.projections@),
            queries@.map_values(|e: (String, String)| (e.0@, e.1@)) == query_entries(model.queries@),
            automations@.map_values(|e: (String, String)| (e.0@, e.1@)) == automation_entries(model.automations@),
            "event_"@.len() > 0,
            "command_"@.len() > 0,
            "view_"@.len() > 0,
            "projection_"@.len() > 0,
            "query_"@.len() > 0,
            "automation_"@.len() > 0,
            out@.len() == i,
            forall|k: int| 0 <= k < i ==> lane_converted(#[trigger] out@[k], model.swimlanes@[k], k, *model),
    {
        let lane = lanes[i];
        let id_text = text_of(&lane.id.clone().into_inner());
        let mut ids: Vec<EntityId> = Vec::new();
        assert(ids@.map_values(|e: EntityId| e@) =~= Seq::<Seq<char>>::empty());
        push_members(&mut ids, &events, "event_", id_text.as_str());
        push_members(&mut ids, &commands, "command_", id_text.as_str());
        push_members(&mut ids, &views, "view_", id_text.as_str());
        push_members(&mut ids, &projections, "projection_", id_text.as_str());
        push_members(&mut ids, &queries, "query_", id_text.as_str());
        push_members(&mut ids, &automations, "automation_", id_text.as_str());
        assert(ids@.map_values(|e: EntityId| e@) =~= lane_members(*model, lane.id@));
        let s = DiagramSwimlane {
            id: DiagramSwimlaneId::new(lane.id.clone().into_inner()),
            name: DiagramSwimlaneName::new(lane.name.clone().into_inner()),
            position: SwimlanePosition::new(NonNegativeInt::new(#[verifier::truncate] (i as u32))),
            entities: ids,
        };
        out.push(s);
        assert(out@[i as int] == s);
    }
    non_empty_of(out)
}

/// The characters of `s` before its first `.`.
pub fn text_before_dot(s: &str) -> (r: String)
    ensures
        r@ == before_dot(s@),
{
    let n = s.unicode_len();
    let mut i: usize = 0;
    assert(s@.skip(0) =~= s@);
    assert(s@.take(0) =~= Seq::<char>::empty());
    while i < n && s.get_char(i) != '.'
        invariant
            i <= n,
            n == s@.len(),
            before_dot(s@) == s@.take(i as int) + before_dot(s@.skip(i as int)),
        decreases n - i,
    {
        assert(s@.skip(i as int)[0] == s@[i as int]);
        assert(s@.skip(i as int).drop_first() =~= s@.skip(i + 1));
        assert(s@.take(i + 1) =~= s@.take(i as int) + seq![s@[i as int]]);
        i += 1;
    }
    if i < n {
        assert(s@.skip(i as int)[0] == '.');
    } else {
        assert(s@.skip(i as int) =~= Seq::<char>::empty());
    }
    let mut r = String::new();
    let mut j: usize = 0;
    while j < i
        invariant
            j <= i <= n,
            n == s@.len(),
            r@ == s@.take(j as int),
        decreases i - j,
    {
        crate::infrastructure::text::push_char(&mut r, s.get_char(j));
        assert(s@.take(j + 1) =~= s@.take(j as int).push(s@[j as int]));
        j += 1;
    }
    assert(r@ =~= before_dot(s@));
    r
}

/// The entity id a reference stands for.
fn reference_entity_id(r: &yaml::EntityReference) -> (id: EntityId)
    ensures
        id@ == reference_id(*r),
{
    proof {
        reveal_strlit("event_");
        reveal_strlit("command_");
        reveal_strlit("view_");
        reveal_strlit("projection_");
        reveal_strlit("query_");
        reveal_strlit("automation_");
    }
    match r {
        yaml::EntityReference::Event(n) => prefixed_id("event_", n.clone().into_inner().as_str()),
        yaml::EntityReference::Command(n) => prefixed_id("command_", n.clone().into_inner().as_str()),
        yaml::EntityReference::View(p) => {
            let top = text_before_dot(p.clone().into_inner().as_str());
            prefixed_id("view_", top.as_str())
        },
        yaml::EntityReference::Projection(n) => prefixed_id("projection_", n.clone().into_inner().as_str()),
        yaml::EntityReference::Query(n) => prefixed_id("query_", n.clone().into_inner().as_str()),
        yaml::EntityReference::Automation(n) => prefixed_id("automation_", n.clone().into_inner().as_str()),
    }
}

/// One connector per connection, between the entities the ends stand for.
fn convert_yaml_connections_to_connectors(yaml_connections: &NonEmpty<yaml::Connection>) -> (r: Vec<Connector>)
    ensures
        connectors_converted(r@, yaml_connections@),
{
    let all = yaml_connections.iter();
    let n = all.len();
    let mut out: Vec<Connector> = Vec::new();
    for i in 0..n
        invariant
            n == all@.len(),
            all@.len() == yaml_connections@.len(),
            forall|k: int| 0 <= k < all@.len() ==> *all@[k] == yaml_connections@[k],
            out@.len() == i,
            forall|k: int| 0 <= k < i ==> {
                &&& (#[trigger] out@[k]).from@ == reference_id(yaml_connections@[k].from)
                &&& out@[k].to@ == reference_id(yaml_connections@[k].to)
                &&& out@[k].label is None
            },
    {
        let connection = all[i];
        out.push(
            Connector {
                from: reference_entity_id(&connection.from),
                to: reference_entity_id(&connection.to),
                label: None,
            },
        );
    }
    out
}

/// Copies of the ids.
fn copy_ids(ids: &Vec<EntityId>) -> (r: Vec<EntityId>)
    ensures
        r@.len() == ids@.len(),
        ids_of(r@) == ids_of(ids@),
{
    let mut r: Vec<EntityId> = Vec::new();
    let n = ids.len();
    for i in 0..n
        invariant
            n == ids@.len(),
            r@.len() == i,
            forall|k: int| 0 <= k < i ==> (#[trigger] r@[k])@ == ids@[k]@,
    {
        r.push(ids[i].clone());
    }
    assert(ids_of(r@) =~= ids_of(ids@));
    r
}

/// The diagram slices for the YAML slices; every slice holds every entity.
fn convert_yaml_slices_to_diagram_slices(
    yaml_slices: &Vec<(yaml::SliceName, NonEmpty<yaml::Connection>)>,
    entity_ids: &Vec<EntityId>,
) -> (r: Result<NonEmpty<DiagramSlice>, ConversionError>)
    requires
        yaml_slices@.len() * 300 + 280 <= usize::MAX,
    ensures
        r matches Ok(s) && slices_converted(s@, yaml_slices@, ids_of(entity_ids@)),
{
    if yaml_slices.len() == 0 || entity_ids.len() == 0 {
        proof {
            reveal_strlit("dummy");
            reveal_strlit("default");
            reveal_strlit("Default");
        }
        let first = if entity_ids.len() == 0 {
            EntityId::new(literal("dummy"))
        } else {
            entity_ids[0].clone()
        };
        let slice = DiagramSlice {
            id: SliceId::new(literal("default")),
            name: DiagramSliceName::new(literal("Default")),
            boundaries: SliceBoundaries {
                start_x: HorizontalPosition::new(NonNegativeInt::new(0)),
                end_x: HorizontalPosition::new(NonNegativeInt::new(100)),
            },
            entities: NonEmpty::singleton(first),
            connections: Vec::new(),
            acceptance_criteria: None,
        };
        let r = NonEmpty::singleton(slice);
        assert(ids_of(r@[0].entities@) =~= if ids_of(entity_ids@).len() == 0 {
            seq!["dummy"@]
        } else {
            seq![ids_of(entity_ids@)[0]]
        });
        return Ok(r);
    }
    let mut slices: Vec<DiagramSlice> = Vec::new();
    let n = yaml_slices.len();
    for i in 0..n
        invariant
            n == yaml_slices@.len(),
            n * 300 + 280 <= usize::MAX,
            entity_ids@.len() > 0,
            slices@.len() == i,
            forall|k: int| 0 <= k < i ==> {
                &&& (#[trigger] slices@[k]).id@ == yaml_slices@[k].0@
                &&& slices@[k].name@ == yaml_slices@[k].0@
                &&& slices@[k].boundaries.start_x@ == (k * 300) as u32
                &&& slices@[k].boundaries.end_x@ == (k * 300 + 280) as u32
                &&& ids_of(slices@[k].entities@) == ids_of(entity_ids@)
                &&& connectors_converted(slices@[k].connections@, yaml_slices@[k].1@)
                &&& slices@[k].acceptance_criteria is None
            },
    {
        let (name, connections) = &yaml_slices[i];
        let converted = convert_yaml_connections_to_connectors(connections);
        let start_x = i * 300;
        let end_x = start_x + 280;
        let all = copy_ids(entity_ids);
        let entities = non_empty_of(all);
        let slice = DiagramSlice {
            id: SliceId::new(name.clone().into_inner()),
            name: DiagramSliceName::new(name.clone().into_inner()),
            boundaries: SliceBoundaries {
                start_x: HorizontalPosition::new(NonNegativeInt::new(#[verifier::truncate] (start_x as u32))),
                end_x: HorizontalPosition::new(NonNegativeInt::new(#[verifier::truncate] (end_x as u32))),
            },
            entities,
            connections: converted,
            acceptance_criteria: None,
        };
        slices.push(slice);
        assert(slices@[i as int] == slice);
    }
    Ok(non_empty_of(slices))
}

/// Converts a validated YAML model to a diagram. Fails with the first
/// event whose swimlane is unknown or whose name is not an event name, or
/// else with the first command whose swimlane is unknown.
pub fn convert_yaml_to_diagram(yaml_model: yaml::YamlEventModel) -> (r: Result<
    EventModelDiagram<Empty, Empty, Empty, Empty, Empty, Empty>,
    ConversionError,
>)
    requires
        yaml_model.swimlanes@.len() <= u32::MAX + 1,
        yaml_model.events@.len() <= u32::MAX + 1,
        yaml_model.events@.len() + yaml_model.commands@.len() <= usize::MAX,
        yaml_model.slices@.len() * 300 + 280 <= usize::MAX,
        events_error(yaml_model.events@, lane_ids(yaml_model.swimlanes@)) is None ==> commands_convertible(
            yaml_model.commands@,
            lane_ids(yaml_model.swimlanes@),
        ),
    ensures
        r is Err <==> diagram_error(yaml_model) is Some,
        r matches Err(e) ==> diagram_error(yaml_model) == Some(e@),
        r matches Ok(d) ==> diagram_of(d, yaml_model),
{
    let events = match convert_events(&yaml_model.events, &yaml_model.swimlanes) {
        Ok(v) => v,
        Err(e) => return Err(e),
    };
    let commands = match convert_commands(&yaml_model.commands, &yaml_model.swimlanes) {
        Ok(v) => v,
        Err(e) => return Err(e),
    };
    let mut entity_ids: Vec<EntityId> = Vec::new();
    let en = events.len();
    for i in 0..en
        invariant
            en == events@.len(),
            en == yaml_model.events@.len(),
            forall|k: int| 0 <= k < en ==> event_converted(#[trigger] events@[k], yaml_model.events@[k], k),
            entity_ids@.len() == i,
            forall|k: int| 0 <= k < i ==> (#[trigger] entity_ids@[k])@ == "event_"@ + yaml_model.events@[k].0@,
    {
        assert(event_converted(events@[i as int], yaml_model.events@[i as int], i as int));
        entity_ids.push(events[i].id.clone());
    }
    let cn = commands.len();
    for i in 0..cn
        invariant
            cn == commands@.len(),
            cn == yaml_model.commands@.len(),
            en == yaml_model.events@.len(),
            en + cn <= usize::MAX,
            forall|k: int| 0 <= k < cn ==> command_converted(#[trigger] commands@[k], yaml_model.commands@[k], yaml_model.swimlanes@),
            entity_ids@.len() == en + i,
            forall|k: int| 0 <= k < en ==> (#[trigger] entity_ids@[k])@ == "event_"@ + yaml_model.events@[k].0@,
            forall|k: int| 0 <= k < i ==> (#[trigger] entity_ids@[en + k])@ == "command_"@ + yaml_model.commands@[k].0@,
    {
        assert(command_converted(commands@[i as int], yaml_model.commands@[i as int], yaml_model.swimlanes@));
        entity_ids.push(commands[i].id.clone());
    }
    proof {
        let evs = event_entries(yaml_model.events@).map_values(|e: (Seq<char>, Seq<char>)| "event_"@ + e.0);
        let cms = command_entries(yaml_model.commands@).map_values(|e: (Seq<char>, Seq<char>)| "command_"@ + e.0);
        assert(evs.len() == en);
        assert(cms.len() == cn);
        assert forall|k: int| 0 <= k < en implies #[trigger] evs[k] == ids_of(entity_ids@)[k] by {
            assert(event_entries(yaml_model.events@)[k].0 == yaml_model.events@[k].0@);
        }
        assert forall|k: int| 0 <= k < cn implies #[trigger] cms[k] == ids_of(entity_ids@)[en + k] by {
            assert(command_entries(yaml_model.commands@)[k].0 == yaml_model.commands@[k].0@);
        }
        assert(ids_of(entity_ids@) =~= evs + cms);
    }
    let swimlanes = convert_swimlanes_with_entities(&yaml_model);
    let slices = match convert_yaml_slices_to_diagram_slices(&yaml_model.slices, &entity_ids) {
        Ok(s) => s,
        Err(e) => return Err(e),
    };
    let metadata = DiagramMetadata {
        title: DiagramTitle::new(yaml_model.workflow.clone().into_inner()),
        description: None,
    };
    Ok(EventModelDiagram { metadata, swimlanes, entities: EntityRegistry::new(), slices, connectors: Vec::new() })
}

} // verus!
