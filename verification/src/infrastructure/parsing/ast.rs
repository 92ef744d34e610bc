//! Abstract Syntax Tree (AST) for Event Model DSL.
//!
//! This module defines the structure of parsed Event Models. The AST
//! represents the logical structure of an event model without concern
//! for the concrete syntax used in the source file.
//!
//! # Structure
//!
//! An `EventModel` consists of:
//! - Metadata (title, description)
//! - Swimlanes containing entities
//! - Slices defining feature boundaries

use crate::infrastructure::types::{NonEmptyString, NonNegativeInt};
use vstd::prelude::*;

verus! {
/// The root AST node representing a complete Event Model.
#[derive(Debug, Clone)]
pub struct EventModel {
    /// Model-level metadata.
    pub metadata: ModelMetadata,
    /// Horizontal swimlanes organizing entities by actor/system.
    pub swimlanes: Vec<Swimlane>,
    /// Vertical slices defining feature boundaries.
    pub slices: Vec<Slice>,
}

/// Metadata about the Event Model.
#[derive(Debug, Clone)]
pub struct ModelMetadata {
    /// Optional title for the model.
    pub title: Option<ModelTitle>,
    /// Optional description of the model.
    pub description: Option<ModelDescription>,
}

/// Title of an Event Model.
#[derive(Debug, PartialEq, Eq)]
pub struct ModelTitle(NonEmptyString);

impl View for ModelTitle {
    type V = Seq<char>;

    closed spec fn view(&self) -> Seq<char> {
        self.0@
    }
}

impl Clone for ModelTitle {
    fn clone(&self) -> (r: Self)
        ensures
            r@ == self@,
    {
        ModelTitle(self.0.clone())
    }
}

impl ModelTitle {
    /// Wraps `value`.
    pub fn new(value: NonEmptyString) -> (r: Self)
        ensures
            r@ == value@,
    {
        ModelTitle(value)
    }

    /// The wrapped value.
    pub fn into_inner(self) -> (r: NonEmptyString)
        ensures
            r@ == self@,
    {
        self.0
    }
}


/// Description of an Event Model.
#[derive(Debug, PartialEq, Eq)]
pub struct ModelDescription(NonEmptyString);

impl View for ModelDescription {
    type V = Seq<char>;

    closed spec fn view(&self) -> Seq<char> {
        self.0@
    }
}

impl Clone for ModelDescription {
    fn clone(&self) -> (r: Self)
        ensures
            r@ == self@,
    {
        ModelDescription(self.0.clone())
    }
}

impl ModelDescription {
    /// Wraps `value`.
    pub fn new(value: NonEmptyString) -> (r: Self)
        ensures
            r@ == value@,
    {
        ModelDescription(value)
    }

    /// The wrapped value.
    pub fn into_inner(self) -> (r: NonEmptyString)
        ensures
            r@ == self@,
    {
        self.0
    }
}


/// A horizontal swimlane grouping related entities.
///
/// Swimlanes typically represent actors, systems, or departments.
#[derive(Debug, Clone)]
pub struct Swimlane {
    /// Name of the swimlane.
    pub name: SwimlaneName,
    /// Entities contained in this swimlane.
    pub entities: Vec<Entity>,
}

/// Name of a swimlane.
#[derive(Debug, PartialEq, Eq)]
pub struct SwimlaneName(NonEmptyString);

impl View for SwimlaneName {
    type V = Seq<char>;

    closed spec fn view(&self) -> Seq<char> {
        self.0@
    }
}

impl Clone for SwimlaneName {
    fn clone(&self) -> (r: Self)
        ensures
            r@ == self@,
    {
        SwimlaneName(self.0.clone())
    }
}

impl SwimlaneName {
    /// Wraps `value`.
    pub fn new(value: NonEmptyString) -> (r: Self)
        ensures
            r@ == value@,
    {
        SwimlaneName(value)
    }

    /// The wrapped value.
    pub fn into_inner(self) -> (r: NonEmptyString)
        ensures
            r@ == self@,
    {
        self.0
    }
}


/// An entity in the Event Model.
///
/// Entities are the core building blocks of an Event Model,
/// representing different aspects of the system.
#[derive(Debug, Clone)]
pub enum Entity {
    /// UI mockup showing inputs and outputs.
    Wireframe(Wireframe),
    /// User intention to change state.
    Command(Command),
    /// Record of a state change.
    Event(Event),
    /// Derived read model.
    Projection(Projection),
    /// Data retrieval operation.
    Query(Query),
    /// System-triggered action.
    Automation(Automation),
}

/// A UI wireframe showing user interface elements.
#[derive(Debug, Clone)]
pub struct Wireframe {
    /// Name of the wireframe.
    pub name: EntityName,
    /// Input fields displayed in the UI.
    pub inputs: Vec<InputField>,
    /// Output fields displayed in the UI.
    pub outputs: Vec<OutputField>,
    /// Optional link to detailed documentation.
    pub link: Option<DocumentationLink>,
}

/// A command representing a user's intention to change state.
#[derive(Debug, Clone)]
pub struct Command {
    /// Name of the command.
    pub name: EntityName,
    /// Actor who can issue this command.
    pub actor: Option<ActorName>,
    /// Data payload of the command.
    pub payload: Vec<PayloadField>,
    /// Optional link to detailed documentation.
    pub link: Option<DocumentationLink>,
}

/// An event representing a state change that has occurred.
#[derive(Debug, Clone)]
pub struct Event {
    /// Name of the event (past tense).
    pub name: EntityName,
    /// Logical timestamp for ordering.
    pub timestamp: Timestamp,
    /// Data recorded with the event.
    pub data: Vec<DataField>,
    /// Optional link to detailed documentation.
    pub link: Option<DocumentationLink>,
}

/// A projection representing a derived read model.
#[derive(Debug, Clone)]
pub struct Projection {
    /// Name of the projection.
    pub name: EntityName,
    /// Events that feed this projection.
    pub sources: Vec<EventReference>,
    /// Fields available in the projection.
    pub fields: Vec<ProjectionField>,
    /// Optional link to detailed documentation.
    pub link: Option<DocumentationLink>,
}

/// A query for retrieving data from a projection.
#[derive(Debug, Clone)]
pub struct Query {
    /// Name of the query.
    pub name: EntityName,
    /// Projection this query reads from.
    pub projection: ProjectionReference,
    /// Parameters for the query.
    pub parameters: Vec<QueryParameter>,
    /// Optional link to detailed documentation.
    pub link: Option<DocumentationLink>,
}

/// An automation that triggers actions based on events.
#[derive(Debug, Clone)]
pub struct Automation {
    /// Name of the automation.
    pub name: EntityName,
    /// Event that triggers this automation.
    pub trigger: EventReference,
    /// Command executed by this automation.
    pub action: CommandReference,
    /// Optional link to detailed documentation.
    pub link: Option<DocumentationLink>,
}

/// A vertical slice representing a feature boundary.
#[derive(Debug, Clone)]
pub struct Slice {
    /// Name of the slice.
    pub name: SliceName,
    /// Entity names contained in this slice.
    pub contains: Vec<EntityReference>,
    /// Optional acceptance criteria.
    pub given_when_then: Option<GivenWhenThen>,
}

/// Acceptance criteria in Given-When-Then format.
#[derive(Debug, Clone)]
pub struct GivenWhenThen {
    /// Preconditions (Given).
    pub given: ScenarioGiven,
    /// Action taken (When).
    pub when: ScenarioWhen,
    /// Expected outcomes (Then).
    pub then: Vec<ScenarioThen>,
}


/// Name of an entity.
#[derive(Debug, PartialEq, Eq)]
pub struct EntityName(NonEmptyString);

impl View for EntityName {
    type V = Seq<char>;

    closed spec fn view(&self) -> Seq<char> {
        self.0@
    }
}

impl Clone for EntityName {
    fn clone(&self) -> (r: Self)
        ensures
            r@ == self@,
    {
        EntityName(self.0.clone())
    }
}

impl EntityName {
    /// Wraps `value`.
    pub fn new(value: NonEmptyString) -> (r: Self)
        ensures
            r@ == value@,
    {
        EntityName(value)
    }

    /// The wrapped value.
    pub fn into_inner(self) -> (r: NonEmptyString)
        ensures
            r@ == self@,
    {
        self.0
    }
}


/// Name of an actor.
#[derive(Debug, PartialEq, Eq)]
pub struct ActorName(NonEmptyString);

impl View for ActorName {
    type V = Seq<char>;

    closed spec fn view(&self) -> Seq<char> {
        self.0@
    }
}

impl Clone for ActorName {
    fn clone(&self) -> (r: Self)
        ensures
            r@ == self@,
    {
        ActorName(self.0.clone())
    }
}

impl ActorName {
    /// Wraps `value`.
    pub fn new(value: NonEmptyString) -> (r: Self)
        ensures
            r@ == value@,
    {
        ActorName(value)
    }

    /// The wrapped value.
    pub fn into_inner(self) -> (r: NonEmptyString)
        ensures
            r@ == self@,
    {
        self.0
    }
}


/// Input field name.
#[derive(Debug, PartialEq, Eq)]
pub struct InputField(NonEmptyString);

impl View for InputField {
    type V = Seq<char>;

    closed spec fn view(&self) -> Seq<char> {
        self.0@
    }
}

impl Clone for InputField {
    fn clone(&self) -> (r: Self)
        ensures
            r@ == self@,
    {
        InputField(self.0.clone())
    }
}

impl InputField {
    /// Wraps `value`.
    pub fn new(value: NonEmptyString) -> (r: Self)
        ensures
            r@ == value@,
    {
        InputField(value)
    }

    /// The wrapped value.
    pub fn into_inner(self) -> (r: NonEmptyString)
        ensures
            r@ == self@,
    {
        self.0
    }
}


/// Output field name.
#[derive(Debug, PartialEq, Eq)]
pub struct OutputField(NonEmptyString);

impl View for OutputField {
    type V = Seq<char>;

    closed spec fn view(&self) -> Seq<char> {
        self.0@
    }
}

impl Clone for OutputField {
    fn clone(&self) -> (r: Self)
        ensures
            r@ == self@,
    {
        OutputField(self.0.clone())
    }
}

impl OutputField {
    /// Wraps `value`.
    pub fn new(value: NonEmptyString) -> (r: Self)
        ensures
            r@ == value@,
    {
        OutputField(value)
    }

    /// The wrapped value.
    pub fn into_inner(self) -> (r: NonEmptyString)
        ensures
            r@ == self@,
    {
        self.0
    }
}


/// Command payload field name.
#[derive(Debug, PartialEq, Eq)]
pub struct PayloadField(NonEmptyString);

impl View for PayloadField {
    type V = Seq<char>;

    closed spec fn view(&self) -> Seq<char> {
        self.0@
    }
}

impl Clone for PayloadField {
    fn clone(&self) -> (r: Self)
        ensures
            r@ == self@,
    {
        PayloadField(self.0.clone())
    }
}

impl PayloadField {
    /// Wraps `value`.
    pub fn new(value: NonEmptyString) -> (r: Self)
        ensures
            r@ == value@,
    {
        PayloadField(value)
    }

    /// The wrapped value.
    pub fn into_inner(self) -> (r: NonEmptyString)
        ensures
            r@ == self@,
    {
        self.0
    }
}


/// Event data field name.
#[derive(Debug, PartialEq, Eq)]
pub struct DataField(NonEmptyString);

impl View for DataField {
    type V = Seq<char>;

    closed spec fn view(&self) -> Seq<char> {
        self.0@
    }
}

impl Clone for DataField {
    fn clone(&self) -> (r: Self)
        ensures
            r@ == self@,
    {
        DataField(self.0.clone())
    }
}

impl DataField {
    /// Wraps `value`.
    pub fn new(value: NonEmptyString) -> (r: Self)
        ensures
            r@ == value@,
    {
        DataField(value)
    }

    /// The wrapped value.
    pub fn into_inner(self) -> (r: NonEmptyString)
        ensures
            r@ == self@,
    {
        self.0
    }
}


/// Projection field name.
#[derive(Debug, PartialEq, Eq)]
pub struct ProjectionField(NonEmptyString);

impl View for ProjectionField {
    type V = Seq<char>;

    closed spec fn view(&self) -> Seq<char> {
        self.0@
    }
}

impl Clone for ProjectionField {
    fn clone(&self) -> (r: Self)
        ensures
            r@ == self@,
    {
        ProjectionField(self.0.clone())
    }
}

impl ProjectionField {
    /// Wraps `value`.
    pub fn new(value: NonEmptyString) -> (r: Self)
        ensures
            r@ == value@,
    {
        ProjectionField(value)
    }

    /// The wrapped value.
    pub fn into_inner(self) -> (r: NonEmptyString)
        ensures
            r@ == self@,
    {
        self.0
    }
}


/// Query parameter name.
#[derive(Debug, PartialEq, Eq)]
pub struct QueryParameter(NonEmptyString);

impl View for QueryParameter {
    type V = Seq<char>;

    closed spec fn view(&self) -> Seq<char> {
        self.0@
    }
}

impl Clone for QueryParameter {
    fn clone(&self) -> (r: Self)
        ensures
            r@ == self@,
    {
        QueryParameter(self.0.clone())
    }
}

impl QueryParameter {
    /// Wraps `value`.
    pub fn new(value: NonEmptyString) -> (r: Self)
        ensures
            r@ == value@,
    {
        QueryParameter(value)
    }

    /// The wrapped value.
    pub fn into_inner(self) -> (r: NonEmptyString)
        ensures
            r@ == self@,
    {
        self.0
    }
}


/// Logical timestamp for event ordering.
#[derive(Debug, Clone, Copy, PartialEq, Eq, Structural, PartialOrd, Ord)]
pub struct Timestamp(NonNegativeInt);

impl View for Timestamp {
    type V = u32;

    closed spec fn view(&self) -> u32 {
        self.0@
    }
}

impl Timestamp {
    /// Wraps `value`.
    pub fn new(value: NonNegativeInt) -> (r: Self)
        ensures
            r@ == value@,
    {
        Timestamp(value)
    }

    /// The wrapped value.
    pub fn into_inner(self) -> (r: NonNegativeInt)
        ensures
            r@ == self@,
    {
        self.0
    }
}


/// Reference to an event by name.
#[derive(Debug, PartialEq, Eq)]
pub struct EventReference(NonEmptyString);

impl View for EventReference {
    type V = Seq<char>;

    closed spec fn view(&self) -> Seq<char> {
        self.0@
    }
}

impl Clone for EventReference {
    fn clone(&self) -> (r: Self)
        ensures
            r@ == self@,
    {
        EventReference(self.0.clone())
    }
}

impl EventReference {
    /// Wraps `value`.
    pub fn new(value: NonEmptyString) -> (r: Self)
        ensures
            r@ == value@,
    {
        EventReference(value)
    }

    /// The wrapped value.
    pub fn into_inner(self) -> (r: NonEmptyString)
        ensures
            r@ == self@,
    {
        self.0
    }
}


/// Reference to a projection by name.
#[derive(Debug, PartialEq, Eq)]
pub struct ProjectionReference(NonEmptyString);

impl View for ProjectionReference {
    type V = Seq<char>;

    closed spec fn view(&self) -> Seq<char> {
        self.0@
    }
}

impl Clone for ProjectionReference {
    fn clone(&self) -> (r: Self)
        ensures
            r@ == self@,
    {
        ProjectionReference(self.0.clone())
    }
}

impl ProjectionReference {
    /// Wraps `value`.
    pub fn new(value: NonEmptyString) -> (r: Self)
        ensures
            r@ == value@,
    {
        ProjectionReference(value)
    }

    /// The wrapped value.
    pub fn into_inner(self) -> (r: NonEmptyString)
        ensures
            r@ == self@,
    {
        self.0
    }
}


/// Reference to a command by name.
#[derive(Debug, PartialEq, Eq)]
pub struct CommandReference(NonEmptyString);

impl View for CommandReference {
    type V = Seq<char>;

    closed spec fn view(&self) -> Seq<char> {
        self.0@
    }
}

impl Clone for CommandReference {
    fn clone(&self) -> (r: Self)
        ensures
            r@ == self@,
    {
        CommandReference(self.0.clone())
    }
}

impl CommandReference {
    /// Wraps `value`.
    pub fn new(value: NonEmptyString) -> (r: Self)
        ensures
            r@ == value@,
    {
        CommandReference(value)
    }

    /// The wrapped value.
    pub fn into_inner(self) -> (r: NonEmptyString)
        ensures
            r@ == self@,
    {
        self.0
    }
}


/// Reference to any entity by name.
#[derive(Debug, PartialEq, Eq)]
pub struct EntityReference(NonEmptyString);

impl View for EntityReference {
    type V = Seq<char>;

    closed spec fn view(&self) -> Seq<char> {
        self.0@
    }
}

impl Clone for EntityReference {
    fn clone(&self) -> (r: Self)
        ensures
            r@ == self@,
    {
        EntityReference(self.0.clone())
    }
}

impl EntityReference {
    /// Wraps `value`.
    pub fn new(value: NonEmptyString) -> (r: Self)
        ensures
            r@ == value@,
    {
        EntityReference(value)
    }

    /// The wrapped value.
    pub fn into_inner(self) -> (r: NonEmptyString)
        ensures
            r@ == self@,
    {
        self.0
    }
}


/// Name of a slice.
#[derive(Debug, PartialEq, Eq)]
pub struct SliceName(NonEmptyString);

impl View for SliceName {
    type V = Seq<char>;

    closed spec fn view(&self) -> Seq<char> {
        self.0@
    }
}

impl Clone for SliceName {
    fn clone(&self) -> (r: Self)
        ensures
            r@ == self@,
    {
        SliceName(self.0.clone())
    }
}

impl SliceName {
    /// Wraps `value`.
    pub fn new(value: NonEmptyString) -> (r: Self)
        ensures
            r@ == value@,
    {
        SliceName(value)
    }

    /// The wrapped value.
    pub fn into_inner(self) -> (r: NonEmptyString)
        ensures
            r@ == self@,
    {
        self.0
    }
}


/// Given clause in acceptance criteria.
#[derive(Debug, PartialEq, Eq)]
pub struct ScenarioGiven(NonEmptyString);

impl View for ScenarioGiven {
    type V = Seq<char>;

    closed spec fn view(&self) -> Seq<char> {
        self.0@
    }
}

impl Clone for ScenarioGiven {
    fn clone(&self) -> (r: Self)
        ensures
            r@ == self@,
    {
        ScenarioGiven(self.0.clone())
    }
}

impl ScenarioGiven {
    /// Wraps `value`.
    pub fn new(value: NonEmptyString) -> (r: Self)
        ensures
            r@ == value@,
    {
        ScenarioGiven(value)
    }

    /// The wrapped value.
    pub fn into_inner(self) -> (r: NonEmptyString)
        ensures
            r@ == self@,
    {
        self.0
    }
}


/// When clause in acceptance criteria.
#[derive(Debug, PartialEq, Eq)]
pub struct ScenarioWhen(NonEmptyString);

impl View for ScenarioWhen {
    type V = Seq<char>;

    closed spec fn view(&self) -> Seq<char> {
        self.0@
    }
}

impl Clone for ScenarioWhen {
    fn clone(&self) -> (r: Self)
        ensures
            r@ == self@,
    {
        ScenarioWhen(self.0.clone())
    }
}

impl ScenarioWhen {
    /// Wraps `value`.
    pub fn new(value: NonEmptyString) -> (r: Self)
        ensures
            r@ == value@,
    {
        ScenarioWhen(value)
    }

    /// The wrapped value.
    pub fn into_inner(self) -> (r: NonEmptyString)
        ensures
            r@ == self@,
    {
        self.0
    }
}


/// Then clause in acceptance criteria.
#[derive(Debug, PartialEq, Eq)]
pub struct ScenarioThen(NonEmptyString);

impl View for ScenarioThen {
    type V = Seq<char>;

    closed spec fn view(&self) -> Seq<char> {
        self.0@
    }
}

impl Clone for ScenarioThen {
    fn clone(&self) -> (r: Self)
        ensures
            r@ == self@,
    {
        ScenarioThen(self.0.clone())
    }
}

impl ScenarioThen {
    /// Wraps `value`.
    pub fn new(value: NonEmptyString) -> (r: Self)
        ensures
            r@ == value@,
    {
        ScenarioThen(value)
    }

    /// The wrapped value.
    pub fn into_inner(self) -> (r: NonEmptyString)
        ensures
            r@ == self@,
    {
        self.0
    }
}


/// Link to external documentation.
#[derive(Debug, PartialEq, Eq)]
pub struct DocumentationLink(NonEmptyString);

impl View for DocumentationLink {
    type V = Seq<char>;

    closed spec fn view(&self) -> Seq<char> {
        self.0@
    }
}

impl Clone for DocumentationLink {
    fn clone(&self) -> (r: Self)
        ensures
            r@ == self@,
    {
        DocumentationLink(self.0.clone())
    }
}

impl DocumentationLink {
    /// Wraps `value`.
    pub fn new(value: NonEmptyString) -> (r: Self)
        ensures
            r@ == value@,
    {
        DocumentationLink(value)
    }

    /// The wrapped value.
    pub fn into_inner(self) -> (r: NonEmptyString)
        ensures
            r@ == self@,
    {
        self.0
    }
}

} // verus!
