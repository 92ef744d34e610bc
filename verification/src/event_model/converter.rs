//! Conversion from a parsed model (simple text format) to a diagram.
//!
//! The diagram keeps the title, one swimlane per parsed swimlane with the
//! ids of its entities, a single slice "Full Model" that holds every entity,
//! an empty entity registry, and one connector per parsed connector.

use crate::event_model::diagram::{
    Connector, DiagramMetadata, DiagramTitle, EventModelDiagram, HorizontalPosition, Slice,
    SliceBoundaries, SliceId, SliceName, Swimlane, SwimlaneId, SwimlaneName, SwimlanePosition,
};
use crate::event_model::entities::EntityId;
use crate::event_model::registry::{Empty, EntityRegistry};
use crate::infrastructure::parsing::simple_parser::{
    all_entities, entity_names_of, model_entity_names, EntityKindModel, ModelSpec, ParsedEntity, ParsedEventModel,
    SwimlaneModel,
};
use crate::infrastructure::types::{NonEmpty, NonEmptyString, NonNegativeInt};
use vstd::prelude::*;

verus! {

/// Errors that can occur during conversion.
#[derive(Debug)]
pub enum ConversionError {
    /// No swimlanes found in the parsed model.
    NoSwimlanes,
    /// No entities found in the parsed model.
    NoEntities,
    /// A connector references an unknown entity.
    UnknownEntityInConnector(String),
    /// Failed to create a non-empty collection.
    NonEmptyCreationFailed(String),
}

/// The content of a `ConversionError`.
pub enum ConversionErrorModel {
    NoSwimlanes,
    NoEntities,
    UnknownEntityInConnector(Seq<char>),
    NonEmptyCreationFailed(Seq<char>),
}

impl View for ConversionError {
    type V = ConversionErrorModel;

    open spec fn view(&self) -> ConversionErrorModel {
        match self {
            ConversionError::NoSwimlanes => ConversionErrorModel::NoSwimlanes,
            ConversionError::NoEntities => ConversionErrorModel::NoEntities,
            ConversionError::UnknownEntityInConnector(s) => ConversionErrorModel::UnknownEntityInConnector(s@),
            ConversionError::NonEmptyCreationFailed(s) => ConversionErrorModel::NonEmptyCreationFailed(s@),
        }
    }
}

impl ConversionError {
    /// The error message.
    pub fn message(&self) -> (r: String)
        ensures
            self@ is UnknownEntityInConnector ==> r@ == "Connector references unknown entity: "@
                + self@->UnknownEntityInConnector_0,
            self@ is NonEmptyCreationFailed ==> r@ == "Failed to create non-empty collection: "@
                + self@->NonEmptyCreationFailed_0,
            self@ is NoSwimlanes ==> r@ == "Event model must contain at least one swimlane"@,
            self@ is NoEntities ==> r@ == "Event model must contain at least one entity"@,
    {
        match self {
            ConversionError::NoSwimlanes => "Event model must contain at least one swimlane".to_owned(),
            ConversionError::NoEntities => "Event model must contain at least one entity".to_owned(),
            ConversionError::UnknownEntityInConnector(s) => {
                let mut m = "Connector references unknown entity: ".to_owned();
                m.append(s.as_str());
                m
            },
            ConversionError::NonEmptyCreationFailed(s) => {
                let mut m = "Failed to create non-empty collection: ".to_owned();
                m.append(s.as_str());
                m
            },
        }
    }
}

/// The first connector end, in order (source before target), that names
/// no entity.
pub open spec fn first_unknown_endpoint(cs: Seq<(Seq<char>, Seq<char>)>, names: Seq<Seq<char>>) -> Option<Seq<char>>
    decreases cs.len(),
{
    if cs.len() == 0 {
        None
    } else if !names.contains(cs[0].0) {
        Some(cs[0].0)
    } else if !names.contains(cs[0].1) {
        Some(cs[0].1)
    } else {
        first_unknown_endpoint(cs.drop_first(), names)
    }
}

/// The error that converting `m` gives, if any: no swimlanes, then no
/// entities, then the first unknown connector end.
pub open spec fn conversion_error(m: ModelSpec) -> Option<ConversionErrorModel> {
    if m.swimlanes.len() == 0 {
        Some(ConversionErrorModel::NoSwimlanes)
    } else if all_entities(m.swimlanes).len() == 0 {
        Some(ConversionErrorModel::NoEntities)
    } else {
        match first_unknown_endpoint(m.connectors, model_entity_names(m.swimlanes)) {
            Some(n) => Some(ConversionErrorModel::UnknownEntityInConnector(n)),
            None => None,
        }
    }
}

/// The ids of a list of entities.
pub open spec fn ids_of(ids: Seq<EntityId>) -> Seq<Seq<char>> {
    ids.map_values(|id: EntityId| id@)
}

/// Swimlane `i` of the diagram stands for parsed swimlane `lane`: same id
/// and name, position `i`, and the ids of its entities in order.
pub open spec fn lane_converted(s: Swimlane, lane: SwimlaneModel, i: int) -> bool {
    &&& s.id@ == lane.name
    &&& s.name@ == lane.name
    &&& s.position@ == i as u32
    &&& ids_of(s.entities@) == entity_names_of(lane.entities)
}

/// The single slice of a converted diagram: "Full Model", from 0 to 1000,
/// holding every entity.
pub open spec fn default_slice(s: Slice, names: Seq<Seq<char>>) -> bool {
    &&& s.id@ == "default_slice"@
    &&& s.name@ == "Full Model"@
    &&& s.boundaries.start_x@ == 0
    &&& s.boundaries.end_x@ == 1000
    &&& ids_of(s.entities@) == names
    &&& s.connections@.len() == 0
    &&& s.acceptance_criteria is None
}

/// `d` is the diagram that converting `m` gives.
pub open spec fn diagram_converted(d: EventModelDiagram<Empty, Empty, Empty, Empty, Empty, Empty>, m: ModelSpec) -> bool {
    &&& d.metadata.title@ == m.title
    &&& d.metadata.description is None
    &&& d.swimlanes@.len() == m.swimlanes.len()
    &&& forall|i: int| 0 <= i < m.swimlanes.len() ==> lane_converted(#[trigger] d.swimlanes@[i], m.swimlanes[i], i)
    &&& d.entities.is_empty_registry()
    &&& d.slices@.len() == 1
    &&& default_slice(d.slices@[0], model_entity_names(m.swimlanes))
    &&& d.connectors@.len() == m.connectors.len()
    &&& forall|i: int| 0 <= i < m.connectors.len() ==> {
        &&& (#[trigger] d.connectors@[i]).from@ == m.connectors[i].0
        &&& d.connectors@[i].to@ == m.connectors[i].1
        &&& d.connectors@[i].label is None
    }
}

proof fn lemma_all_entities_step(lanes: Seq<SwimlaneModel>, i: int)
    requires
        0 <= i < lanes.len(),
    ensures
        all_entities(lanes.take(i + 1)) == all_entities(lanes.take(i)) + lanes[i].entities,
{
    assert(lanes.take(i + 1).drop_last() =~= lanes.take(i));
}

/// Whether `name` is among `names`.
fn find_id(names: &Vec<EntityId>, name: &str) -> (r: bool)
    ensures
        r == ids_of(names@).contains(name@),
{
    let n = names.len();
    for i in 0..n
        invariant
            n == names@.len(),
            forall|j: int| 0 <= j < i ==> names@[j]@ != name@,
    {
        let id = names[i].clone();
        let s = id.into_inner();
        if crate::infrastructure::text::str_equal(s.as_str(), name) {
            assert(ids_of(names@)[i as int] == name@);
            return true;
        }
    }
    assert(!ids_of(names@).contains(name@)) by {
        if ids_of(names@).contains(name@) {
            let j = choose|j: int| 0 <= j < ids_of(names@).len() && ids_of(names@)[j] == name@;
            assert(names@[j]@ == name@);
        }
    }
    false
}

/// A non-empty string holding a literal.
fn literal(s: &str) -> (r: NonEmptyString)
    requires
        s@.len() > 0,
    ensures
        r@ == s@,
{
    match NonEmptyString::parse(s.to_owned()) {
        Ok(v) => v,
        Err(_) => {
            assert(false);
            NonEmptyString::parse(s.to_owned()).unwrap()
        },
    }
}

/// Converts a parsed model into a diagram. Fails when there is no
/// swimlane, when no swimlane has an entity, or when a connector names an
/// entity that no swimlane declares (the first such end is reported).
pub fn convert_to_diagram(parsed: ParsedEventModel) -> (r: Result<
    EventModelDiagram<Empty, Empty, Empty, Empty, Empty, Empty>,
    ConversionError,
>)
    ensures
        r is Err <==> conversion_error(parsed@) is Some,
        r matches Err(e) ==> conversion_error(parsed@) == Some(e@),
        r matches Ok(d) ==> diagram_converted(d, parsed@),
{
    let ghost m = parsed@;
    if parsed.swimlanes.len() == 0 {
        return Err(ConversionError::NoSwimlanes);
    }
    let metadata = DiagramMetadata { title: DiagramTitle::new(parsed.title), description: None };
    let mut lane_entities: Vec<Vec<EntityId>> = Vec::new();
    let mut all_ids: Vec<EntityId> = Vec::new();
    let n = parsed.swimlanes.len();
    for i in 0..n
        invariant
            n == parsed.swimlanes@.len(),
            m == parsed@,
            m.swimlanes.len() == n,
            lane_entities@.len() == i,
            forall|k: int| 0 <= k < i ==> ids_of(#[trigger] lane_entities@[k]@) == entity_names_of(m.swimlanes[k].entities),
            ids_of(all_ids@) == entity_names_of(all_entities(m.swimlanes.take(i as int))),
    {
        let lane = &parsed.swimlanes[i];
        assert(lane@ == m.swimlanes[i as int]);
        let mut ids: Vec<EntityId> = Vec::new();
        let ghost before = all_ids@;
        let k = lane.entities.len();
        for j in 0..k
            invariant
                k == lane.entities@.len(),
                lane@ == m.swimlanes[i as int],
                ids_of(ids@) == entity_names_of(lane@.entities.take(j as int)),
                ids_of(all_ids@) == entity_names_of(all_entities(m.swimlanes.take(i as int))) + ids_of(ids@),
        {
            let entity = &lane.entities[j];
            assert(entity@ == lane@.entities[j as int]);
            let name = match entity {
                ParsedEntity::Command(name)
                | ParsedEntity::Event(name)
                | ParsedEntity::Projection(name)
                | ParsedEntity::Policy(name)
                | ParsedEntity::ExternalSystem(name)
                | ParsedEntity::Aggregate(name) => name.clone(),
            };
            let ghost ids0 = ids@;
            let ghost all0 = all_ids@;
            ids.push(EntityId::new(name.clone()));
            all_ids.push(EntityId::new(name));
            assert(ids_of(ids@) =~= ids_of(ids0).push(entity@.1));
            assert(ids_of(all_ids@) =~= ids_of(all0).push(entity@.1));
            assert(entity_names_of(lane@.entities.take(j + 1)) =~= entity_names_of(lane@.entities.take(
                j as int,
            )).push(entity@.1));
        }
        proof {
            lemma_all_entities_step(m.swimlanes, i as int);
            assert(lane@.entities.take(k as int) =~= lane@.entities);
            assert(entity_names_of((all_entities(m.swimlanes.take(i as int)) + lane@.entities)) =~= entity_names_of(all_entities(m.swimlanes.take(i as int)))
                + entity_names_of(lane@.entities));
        }
        lane_entities.push(ids);
    }
    proof {
        assert(m.swimlanes.take(n as int) =~= m.swimlanes);
    }
    if all_ids.len() == 0 {
        return Err(ConversionError::NoEntities);
    }
    assert(all_entities(m.swimlanes).len() > 0);
    let mut lanes: Vec<Swimlane> = Vec::new();
    let mut parsed_lanes = parsed.swimlanes;
    let mut lane_entities = lane_entities;
    let mut i: usize = 0;
    while parsed_lanes.len() > 0
        invariant
            i + parsed_lanes@.len() == n,
            n == m.swimlanes.len(),
            lanes@.len() == i,
            lane_entities@.len() == n - i,
            forall|k: int| 0 <= k < parsed_lanes@.len() ==> (#[trigger] parsed_lanes@[k])@ == m.swimlanes[i + k],
            forall|k: int| 0 <= k < lane_entities@.len() ==> ids_of(#[trigger] lane_entities@[k]@) == entity_names_of(m.swimlanes[i
                + k].entities),
            forall|k: int| 0 <= k < i ==> lane_converted(#[trigger] lanes@[k], m.swimlanes[k], k),
        decreases parsed_lanes@.len(),
    {
        let lane = parsed_lanes.remove(0);
        let entities = lane_entities.remove(0);
        assert(lane@ == m.swimlanes[i as int]);
        let name = lane.name;
        let s = Swimlane {
            id: SwimlaneId::new(name.clone()),
            name: SwimlaneName::new(name),
            position: SwimlanePosition::new(NonNegativeInt::new(#[verifier::truncate] (i as u32))),
            entities,
        };
        lanes.push(s);
        assert(lanes@[i as int] == s);
        i += 1;
    }
    let first_lane = lanes.remove(0);
    let swimlanes = NonEmpty::from_head_and_tail(first_lane, lanes);
    assert(forall|k: int| 0 <= k < n ==> #[trigger] swimlanes@[k] == (seq![first_lane] + lanes@)[k]);
    let ghost every = ids_of(all_ids@);
    let mut rest_ids = all_ids.clone();
    assert(ids_of(rest_ids@) == every) by {
        assert(ids_of(rest_ids@) =~= every);
    }
    let first_id = rest_ids.remove(0);
    let slice_entities = NonEmpty::from_head_and_tail(first_id, rest_ids);
    assert(ids_of(slice_entities@) =~= every);
    proof {
        reveal_strlit("default_slice");
        reveal_strlit("Full Model");
    }
    let slice = Slice {
        id: SliceId::new(literal("default_slice")),
        name: SliceName::new(literal("Full Model")),
        boundaries: SliceBoundaries {
            start_x: HorizontalPosition::new(NonNegativeInt::new(0)),
            end_x: HorizontalPosition::new(NonNegativeInt::new(1000)),
        },
        entities: slice_entities,
        connections: Vec::new(),
        acceptance_criteria: None,
    };
    let slices = NonEmpty::singleton(slice);
    let mut connectors: Vec<Connector> = Vec::new();
    let cs = parsed.connectors;
    let cn = cs.len();
    assert(m.connectors.skip(0) =~= m.connectors);
    for c in 0..cn
        invariant
            cn == cs@.len(),
            m.connectors == cs@.map_values(|c: crate::infrastructure::parsing::simple_parser::ParsedConnector| c@),
            ids_of(all_ids@) == model_entity_names(m.swimlanes),
            m.swimlanes.len() > 0,
            all_entities(m.swimlanes).len() > 0,
            m == parsed@,
            first_unknown_endpoint(m.connectors, model_entity_names(m.swimlanes)) == first_unknown_endpoint(
                m.connectors.skip(c as int),
                model_entity_names(m.swimlanes),
            ),
            connectors@.len() == c,
            forall|k: int| 0 <= k < c ==> {
                &&& (#[trigger] connectors@[k]).from@ == m.connectors[k].0
                &&& connectors@[k].to@ == m.connectors[k].1
                &&& connectors@[k].label is None
            },
    {
        let connector = &cs[c];
        assert(connector@ == m.connectors[c as int]);
        let ghost rest = m.connectors.skip(c as int);
        assert(rest[0] == m.connectors[c as int]);
        assert(rest.drop_first() =~= m.connectors.skip(c + 1));
        if !find_id(&all_ids, connector.from.as_str()) {
            return Err(ConversionError::UnknownEntityInConnector(connector.from.as_str().to_owned()));
        }
        if !find_id(&all_ids, connector.to.as_str()) {
            return Err(ConversionError::UnknownEntityInConnector(connector.to.as_str().to_owned()));
        }
        let from = match NonEmptyString::parse(connector.from.as_str().to_owned()) {
            Ok(v) => v,
            Err(_) => {
                assert(false);
                return Err(ConversionError::NonEmptyCreationFailed("connector".to_owned()));
            },
        };
        let to = match NonEmptyString::parse(connector.to.as_str().to_owned()) {
            Ok(v) => v,
            Err(_) => {
                assert(false);
                return Err(ConversionError::NonEmptyCreationFailed("connector".to_owned()));
            },
        };
        connectors.push(Connector { from: EntityId::new(from), to: EntityId::new(to), label: None });
    }
    proof {
        assert(m.connectors.skip(cn as int) =~= Seq::<(Seq<char>, Seq<char>)>::empty());
    }
    Ok(EventModelDiagram { metadata, swimlanes, entities: EntityRegistry::new(), slices, connectors })
}

/// Information about entities in the parsed model.
///
/// This is used to provide entity counts and types for display purposes
/// without needing to fully construct domain entities.
pub struct ParsedEntityInfo {
    /// Number of wireframes.
    pub wireframe_count: usize,
    /// Number of commands.
    pub command_count: usize,
    /// Number of events.
    pub event_count: usize,
    /// Number of projections.
    pub projection_count: usize,
    /// Number of queries.
    pub query_count: usize,
    /// Number of automations.
    pub automation_count: usize,
}

/// The number of entities of kind `k`.
pub open spec fn count_kind(ents: Seq<(EntityKindModel, Seq<char>)>, k: EntityKindModel) -> nat
    decreases ents.len(),
{
    if ents.len() == 0 {
        0
    } else {
        count_kind(ents.drop_last(), k) + if ents.last().0 == k { 1nat } else { 0nat }
    }
}

/// Each entity has exactly one of the six kinds.
pub proof fn lemma_kinds_partition(ents: Seq<(EntityKindModel, Seq<char>)>)
    ensures
        count_kind(ents, EntityKindModel::Command) + count_kind(ents, EntityKindModel::Event) + count_kind(
            ents,
            EntityKindModel::Projection,
        ) + count_kind(ents, EntityKindModel::Policy) + count_kind(ents, EntityKindModel::ExternalSystem)
            + count_kind(ents, EntityKindModel::Aggregate) == ents.len(),
    decreases ents.len(),
{
    if ents.len() > 0 {
        lemma_kinds_partition(ents.drop_last());
    }
}

/// Counts the entities by kind: policies count as automations, and
/// external systems and aggregates as projections; no entity of the simple
/// format is a wireframe or a query. Every entity is counted once.
pub fn count_entities(parsed: &ParsedEventModel) -> (r: ParsedEntityInfo)
    requires
        all_entities(parsed@.swimlanes).len() <= usize::MAX,
    ensures
        ({
            let ents = all_entities(parsed@.swimlanes);
            &&& r.wireframe_count == 0
            &&& r.command_count == count_kind(ents, EntityKindModel::Command)
            &&& r.event_count == count_kind(ents, EntityKindModel::Event)
            &&& r.projection_count == count_kind(ents, EntityKindModel::Projection) + count_kind(
                ents,
                EntityKindModel::ExternalSystem,
            ) + count_kind(ents, EntityKindModel::Aggregate)
            &&& r.query_count == 0
            &&& r.automation_count == count_kind(ents, EntityKindModel::Policy)
            &&& r.wireframe_count + r.command_count + r.event_count + r.projection_count + r.query_count
                + r.automation_count == ents.len()
        }),
{
    let ghost m = parsed@;
    let mut info = ParsedEntityInfo {
        wireframe_count: 0,
        command_count: 0,
        event_count: 0,
        projection_count: 0,
        query_count: 0,
        automation_count: 0,
    };
    let n = parsed.swimlanes.len();
    proof {
        lemma_all_entities_prefix(m.swimlanes, n as int);
        assert(m.swimlanes.take(n as int) =~= m.swimlanes);
    }
    for i in 0..n
        invariant
            n == m.swimlanes.len(),
            m == parsed@,
            all_entities(m.swimlanes).len() <= usize::MAX,
            forall|k: int| 0 <= k <= n ==> #[trigger] all_entities(m.swimlanes.take(k)).len() <= all_entities(
                m.swimlanes,
            ).len(),
            info.wireframe_count == 0,
            info.query_count == 0,
            ({
                let ents = all_entities(m.swimlanes.take(i as int));
                &&& info.command_count == count_kind(ents, EntityKindModel::Command)
                &&& info.event_count == count_kind(ents, EntityKindModel::Event)
                &&& info.projection_count == count_kind(ents, EntityKindModel::Projection) + count_kind(
                    ents,
                    EntityKindModel::ExternalSystem,
                ) + count_kind(ents, EntityKindModel::Aggregate)
                &&& info.automation_count == count_kind(ents, EntityKindModel::Policy)
            }),
    {
        let lane = &parsed.swimlanes[i];
        assert(lane@ == m.swimlanes[i as int]);
        let ghost base = all_entities(m.swimlanes.take(i as int));
        proof {
            lemma_all_entities_step(m.swimlanes, i as int);
            assert(all_entities(m.swimlanes.take(i + 1)).len() <= all_entities(m.swimlanes).len());
        }
        let k = lane.entities.len();
        for j in 0..k
            invariant
                k == lane.entities@.len(),
                lane@ == m.swimlanes[i as int],
                base.len() + lane@.entities.len() <= usize::MAX,
                info.wireframe_count == 0,
                info.query_count == 0,
                ({
                    let ents = base + lane@.entities.take(j as int);
                    &&& info.command_count == count_kind(ents, EntityKindModel::Command)
                    &&& info.event_count == count_kind(ents, EntityKindModel::Event)
                    &&& info.projection_count == count_kind(ents, EntityKindModel::Projection) + count_kind(
                        ents,
                        EntityKindModel::ExternalSystem,
                    ) + count_kind(ents, EntityKindModel::Aggregate)
                    &&& info.automation_count == count_kind(ents, EntityKindModel::Policy)
                }),
        {
            let ghost before = base + lane@.entities.take(j as int);
            let ghost after = base + lane@.entities.take(j + 1);
            assert(after.drop_last() =~= before);
            assert(after.last() == lane@.entities[j as int]);
            proof {
                lemma_kinds_partition(before);
            }
            let entity = &lane.entities[j];
            assert(entity@ == lane@.entities[j as int]);
            match entity {
                ParsedEntity::Command(_) => info.command_count += 1,
                ParsedEntity::Event(_) => info.event_count += 1,
                ParsedEntity::Projection(_) => info.projection_count += 1,
                ParsedEntity::Policy(_) => info.automation_count += 1,
                ParsedEntity::ExternalSystem(_) => info.projection_count += 1,
                ParsedEntity::Aggregate(_) => info.projection_count += 1,
            }
        }
        assert(lane@.entities.take(k as int) =~= lane@.entities);
    }
    proof {
        assert(m.swimlanes.take(n as int) =~= m.swimlanes);
        lemma_kinds_partition(all_entities(m.swimlanes));
    }
    info
}

proof fn lemma_all_entities_prefix(lanes: Seq<SwimlaneModel>, n: int)
    requires
        0 <= n <= lanes.len(),
    ensures
        forall|k: int| 0 <= k <= n ==> #[trigger] all_entities(lanes.take(k)).len() <= all_entities(lanes.take(n)).len(),
    decreases n,
{
    if n > 0 {
        lemma_all_entities_prefix(lanes, n - 1);
        lemma_all_entities_step(lanes, n - 1);
    }
}

} // verus!
