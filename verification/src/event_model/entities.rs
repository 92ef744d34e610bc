//! Domain entities of an Event Model: wireframes, commands, events,
//! projections, queries, views and automations.
//!
//! Maps keyed by name are held as vectors of (name, value) pairs in the order
//! they were read.

use crate::infrastructure::types::{
    EventName as SafeEventName, File, MarkdownFile, MaybeExists, NonEmpty, NonEmptyString,
    NonNegativeInt, TypedPath,
};
use vstd::prelude::*;
use vstd::view::View as ModelView;

verus! {

/// Type of entity in the event model.
#[derive(Debug, Clone, Copy, PartialEq, Eq, Structural, Hash)]
pub enum EntityType {
    /// UI wireframe entity.
    Wireframe,
    /// Command entity.
    Command,
    /// Event entity.
    Event,
    /// View entity (UI screen with components).
    View,
    /// Projection entity.
    Projection,
    /// Query entity.
    Query,
    /// Automation entity.
    Automation,
}

/// A UI wireframe showing user interface elements.
#[derive(Debug, Clone)]
pub struct Wireframe {
    /// Unique identifier for this wireframe.
    pub id: EntityId,
    /// Name of the wireframe.
    pub name: WireframeName,
    /// Input fields displayed in the UI.
    pub inputs: NonEmpty<InputField>,
    /// Output fields displayed in the UI.
    pub outputs: NonEmpty<OutputField>,
    /// Optional link to detailed documentation.
    pub documentation: Option<TypedPath<MarkdownFile, File, MaybeExists>>,
}

/// A command representing a user's intention to change state.
#[derive(Debug, Clone)]
pub struct Command {
    /// Unique identifier for this command.
    pub id: EntityId,
    /// Name of the command.
    pub name: CommandName,
    /// Actor who can issue this command.
    pub actor: Actor,
    /// Data payload of the command.
    pub payload: NonEmpty<PayloadField>,
    /// Data schema with field definitions, as (field, definition) pairs.
    pub data_schema: Option<Vec<(FieldName, FieldDefinition)>>,
    /// Test scenarios for this command, as (name, scenario) pairs.
    pub test_scenarios: Option<Vec<(TestScenarioName, TestScenario)>>,
    /// Optional link to detailed documentation.
    pub documentation: Option<TypedPath<MarkdownFile, File, MaybeExists>>,
}

/// An event representing a state change that has occurred.
#[derive(Debug, Clone)]
pub struct Event {
    /// Unique identifier for this event.
    pub id: EntityId,
    /// Name of the event (past tense).
    pub name: EventName,
    /// Logical timestamp for ordering.
    pub timestamp: EventTimestamp,
    /// Data recorded with the event.
    pub data: NonEmpty<EventDataField>,
    /// Optional link to detailed documentation.
    pub documentation: Option<TypedPath<MarkdownFile, File, MaybeExists>>,
}

/// A projection representing a derived read model.
#[derive(Debug, Clone)]
pub struct Projection {
    /// Unique identifier for this projection.
    pub id: EntityId,
    /// Name of the projection.
    pub name: ProjectionName,
    /// Events that feed this projection.
    pub sources: NonEmpty<EventId>,
    /// Fields available in the projection with type annotations.
    pub fields: Vec<(FieldName, FieldType)>,
    /// Optional link to detailed documentation.
    pub documentation: Option<TypedPath<MarkdownFile, File, MaybeExists>>,
}

/// A query for retrieving data from a projection.
#[derive(Debug, Clone)]
pub struct Query {
    /// Unique identifier for this query.
    pub id: EntityId,
    /// Name of the query.
    pub name: QueryName,
    /// Input parameters for the query with type annotations.
    pub inputs: Vec<(FieldName, FieldType)>,
    /// Output specification (single or one-of multiple options).
    pub outputs: OutputSpec,
    /// Optional link to detailed documentation.
    pub documentation: Option<TypedPath<MarkdownFile, File, MaybeExists>>,
}

/// A view representing a UI screen with component hierarchy.
#[derive(Debug, Clone)]
pub struct View {
    /// Unique identifier for this view.
    pub id: EntityId,
    /// Name of the view.
    pub name: ViewName,
    /// UI components in this view.
    pub components: NonEmpty<Component>,
    /// Optional link to detailed documentation.
    pub documentation: Option<TypedPath<MarkdownFile, File, MaybeExists>>,
}

/// An automation that triggers actions based on events.
#[derive(Debug, Clone)]
pub struct Automation {
    /// Unique identifier for this automation.
    pub id: EntityId,
    /// Name of the automation.
    pub name: AutomationName,
    /// Event that triggers this automation.
    pub trigger: EventId,
    /// Command executed by this automation.
    pub action: CommandId,
    /// Optional link to detailed documentation.
    pub documentation: Option<TypedPath<MarkdownFile, File, MaybeExists>>,
}

/// Unique identifier for an entity.
#[derive(Debug, PartialEq, Eq, Hash)]
pub struct EntityId(NonEmptyString);

impl ModelView for EntityId {
    type V = Seq<char>;

    closed spec fn view(&self) -> Seq<char> {
        self.0@
    }
}

impl Clone for EntityId {
    fn clone(&self) -> (r: Self)
        ensures
            r@ == self@,
    {
        EntityId(self.0.clone())
    }
}

impl EntityId {
    /// Wraps `value`.
    pub fn new(value: NonEmptyString) -> (r: Self)
        ensures
            r@ == value@,
    {
        EntityId(value)
    }

    /// The wrapped value.
    pub fn into_inner(self) -> (r: NonEmptyString)
        ensures
            r@ == self@,
    {
        self.0
    }
}

/// Name of a wireframe.
#[derive(Debug, PartialEq, Eq)]
pub struct WireframeName(NonEmptyString);

impl ModelView for WireframeName {
    type V = Seq<char>;

    closed spec fn view(&self) -> Seq<char> {
        self.0@
    }
}

impl Clone for WireframeName {
    fn clone(&self) -> (r: Self)
        ensures
            r@ == self@,
    {
        WireframeName(self.0.clone())
    }
}

impl WireframeName {
    /// Wraps `value`.
    pub fn new(value: NonEmptyString) -> (r: Self)
        ensures
            r@ == value@,
    {
        WireframeName(value)
    }

    /// The wrapped value.
    pub fn into_inner(self) -> (r: NonEmptyString)
        ensures
            r@ == self@,
    {
        self.0
    }
}

/// Name of a command.
#[derive(Debug, PartialEq, Eq)]
pub struct CommandName(NonEmptyString);

impl ModelView for CommandName {
    type V = Seq<char>;

    closed spec fn view(&self) -> Seq<char> {
        self.0@
    }
}

impl Clone for CommandName {
    fn clone(&self) -> (r: Self)
        ensures
            r@ == self@,
    {
        CommandName(self.0.clone())
    }
}

impl CommandName {
    /// Wraps `value`.
    pub fn new(value: NonEmptyString) -> (r: Self)
        ensures
            r@ == value@,
    {
        CommandName(value)
    }

    /// The wrapped value.
    pub fn into_inner(self) -> (r: NonEmptyString)
        ensures
            r@ == self@,
    {
        self.0
    }
}

/// Name of an event (starts with an uppercase letter).
#[derive(Debug, PartialEq, Eq)]
pub struct EventName(SafeEventName);

impl ModelView for EventName {
    type V = Seq<char>;

    closed spec fn view(&self) -> Seq<char> {
        self.0@
    }
}

impl Clone for EventName {
    fn clone(&self) -> (r: Self)
        ensures
            r@ == self@,
    {
        EventName(self.0.clone())
    }
}

impl EventName {
    /// Wraps `value`.
    pub fn new(value: SafeEventName) -> (r: Self)
        ensures
            r@ == value@,
    {
        EventName(value)
    }

    /// The wrapped value.
    pub fn into_inner(self) -> (r: SafeEventName)
        ensures
            r@ == self@,
    {
        self.0
    }
}

/// Name of a projection.
#[derive(Debug, PartialEq, Eq)]
pub struct ProjectionName(NonEmptyString);

impl ModelView for ProjectionName {
    type V = Seq<char>;

    closed spec fn view(&self) -> Seq<char> {
        self.0@
    }
}

impl Clone for ProjectionName {
    fn clone(&self) -> (r: Self)
        ensures
            r@ == self@,
    {
        ProjectionName(self.0.clone())
    }
}

impl ProjectionName {
    /// Wraps `value`.
    pub fn new(value: NonEmptyString) -> (r: Self)
        ensures
            r@ == value@,
    {
        ProjectionName(value)
    }

    /// The wrapped value.
    pub fn into_inner(self) -> (r: NonEmptyString)
        ensures
            r@ == self@,
    {
        self.0
    }
}

/// Name of a query.
#[derive(Debug, PartialEq, Eq)]
pub struct QueryName(NonEmptyString);

impl ModelView for QueryName {
    type V = Seq<char>;

    closed spec fn view(&self) -> Seq<char> {
        self.0@
    }
}

impl Clone for QueryName {
    fn clone(&self) -> (r: Self)
        ensures
            r@ == self@,
    {
        QueryName(self.0.clone())
    }
}

impl QueryName {
    /// Wraps `value`.
    pub fn new(value: NonEmptyString) -> (r: Self)
        ensures
            r@ == value@,
    {
        QueryName(value)
    }

    /// The wrapped value.
    pub fn into_inner(self) -> (r: NonEmptyString)
        ensures
            r@ == self@,
    {
        self.0
    }
}

/// Name of a view.
#[derive(Debug, PartialEq, Eq)]
pub struct ViewName(NonEmptyString);

impl ModelView for ViewName {
    type V = Seq<char>;

    closed spec fn view(&self) -> Seq<char> {
        self.0@
    }
}

impl Clone for ViewName {
    fn clone(&self) -> (r: Self)
        ensures
            r@ == self@,
    {
        ViewName(self.0.clone())
    }
}

impl ViewName {
    /// Wraps `value`.
    pub fn new(value: NonEmptyString) -> (r: Self)
        ensures
            r@ == value@,
    {
        ViewName(value)
    }

    /// The wrapped value.
    pub fn into_inner(self) -> (r: NonEmptyString)
        ensures
            r@ == self@,
    {
        self.0
    }
}

/// Name of an automation.
#[derive(Debug, PartialEq, Eq)]
pub struct AutomationName(NonEmptyString);

impl ModelView for AutomationName {
    type V = Seq<char>;

    closed spec fn view(&self) -> Seq<char> {
        self.0@
    }
}

impl Clone for AutomationName {
    fn clone(&self) -> (r: Self)
        ensures
            r@ == self@,
    {
        AutomationName(self.0.clone())
    }
}

impl AutomationName {
    /// Wraps `value`.
    pub fn new(value: NonEmptyString) -> (r: Self)
        ensures
            r@ == value@,
    {
        AutomationName(value)
    }

    /// The wrapped value.
    pub fn into_inner(self) -> (r: NonEmptyString)
        ensures
            r@ == self@,
    {
        self.0
    }
}

/// Actor who can issue commands.
#[derive(Debug, PartialEq, Eq)]
pub struct Actor(NonEmptyString);

impl ModelView for Actor {
    type V = Seq<char>;

    closed spec fn view(&self) -> Seq<char> {
        self.0@
    }
}

impl Clone for Actor {
    fn clone(&self) -> (r: Self)
        ensures
            r@ == self@,
    {
        Actor(self.0.clone())
    }
}

impl Actor {
    /// Wraps `value`.
    pub fn new(value: NonEmptyString) -> (r: Self)
        ensures
            r@ == value@,
    {
        Actor(value)
    }

    /// The wrapped value.
    pub fn into_inner(self) -> (r: NonEmptyString)
        ensures
            r@ == self@,
    {
        self.0
    }
}

/// Input field name.
#[derive(Debug, PartialEq, Eq)]
pub struct InputField(NonEmptyString);

impl ModelView for InputField {
    type V = Seq<char>;

    closed spec fn view(&self) -> Seq<char> {
        self.0@
    }
}

impl Clone for InputField {
    fn clone(&self) -> (r: Self)
        ensures
            r@ == self@,
    {
        InputField(self.0.clone())
    }
}

impl InputField {
    /// Wraps `value`.
    pub fn new(value: NonEmptyString) -> (r: Self)
        ensures
            r@ == value@,
    {
        InputField(value)
    }

    /// The wrapped value.
    pub fn into_inner(self) -> (r: NonEmptyString)
        ensures
            r@ == self@,
    {
        self.0
    }
}

/// Output field name.
#[derive(Debug, PartialEq, Eq)]
pub struct OutputField(NonEmptyString);

impl ModelView for OutputField {
    type V = Seq<char>;

    closed spec fn view(&self) -> Seq<char> {
        self.0@
    }
}

impl Clone for OutputField {
    fn clone(&self) -> (r: Self)
        ensures
            r@ == self@,
    {
        OutputField(self.0.clone())
    }
}

impl OutputField {
    /// Wraps `value`.
    pub fn new(value: NonEmptyString) -> (r: Self)
        ensures
            r@ == value@,
    {
        OutputField(value)
    }

    /// The wrapped value.
    pub fn into_inner(self) -> (r: NonEmptyString)
        ensures
            r@ == self@,
    {
        self.0
    }
}

/// Command payload field name.
#[derive(Debug, PartialEq, Eq)]
pub struct PayloadField(NonEmptyString);

impl ModelView for PayloadField {
    type V = Seq<char>;

    closed spec fn view(&self) -> Seq<char> {
        self.0@
    }
}

impl Clone for PayloadField {
    fn clone(&self) -> (r: Self)
        ensures
            r@ == self@,
    {
        PayloadField(self.0.clone())
    }
}

impl PayloadField {
    /// Wraps `value`.
    pub fn new(value: NonEmptyString) -> (r: Self)
        ensures
            r@ == value@,
    {
        PayloadField(value)
    }

    /// The wrapped value.
    pub fn into_inner(self) -> (r: NonEmptyString)
        ensures
            r@ == self@,
    {
        self.0
    }
}

/// Event data field name.
#[derive(Debug, PartialEq, Eq)]
pub struct EventDataField(NonEmptyString);

impl ModelView for EventDataField {
    type V = Seq<char>;

    closed spec fn view(&self) -> Seq<char> {
        self.0@
    }
}

impl Clone for EventDataField {
    fn clone(&self) -> (r: Self)
        ensures
            r@ == self@,
    {
        EventDataField(self.0.clone())
    }
}

impl EventDataField {
    /// Wraps `value`.
    pub fn new(value: NonEmptyString) -> (r: Self)
        ensures
            r@ == value@,
    {
        EventDataField(value)
    }

    /// The wrapped value.
    pub fn into_inner(self) -> (r: NonEmptyString)
        ensures
            r@ == self@,
    {
        self.0
    }
}

/// Projection field name.
#[derive(Debug, PartialEq, Eq)]
pub struct ProjectionField(NonEmptyString);

impl ModelView for ProjectionField {
    type V = Seq<char>;

    closed spec fn view(&self) -> Seq<char> {
        self.0@
    }
}

impl Clone for ProjectionField {
    fn clone(&self) -> (r: Self)
        ensures
            r@ == self@,
    {
        ProjectionField(self.0.clone())
    }
}

impl ProjectionField {
    /// Wraps `value`.
    pub fn new(value: NonEmptyString) -> (r: Self)
        ensures
            r@ == value@,
    {
        ProjectionField(value)
    }

    /// The wrapped value.
    pub fn into_inner(self) -> (r: NonEmptyString)
        ensures
            r@ == self@,
    {
        self.0
    }
}

/// Query parameter name.
#[derive(Debug, PartialEq, Eq)]
pub struct QueryParameter(NonEmptyString);

impl ModelView for QueryParameter {
    type V = Seq<char>;

    closed spec fn view(&self) -> Seq<char> {
        self.0@
    }
}

impl Clone for QueryParameter {
    fn clone(&self) -> (r: Self)
        ensures
            r@ == self@,
    {
        QueryParameter(self.0.clone())
    }
}

impl QueryParameter {
    /// Wraps `value`.
    pub fn new(value: NonEmptyString) -> (r: Self)
        ensures
            r@ == value@,
    {
        QueryParameter(value)
    }

    /// The wrapped value.
    pub fn into_inner(self) -> (r: NonEmptyString)
        ensures
            r@ == self@,
    {
        self.0
    }
}

/// Logical timestamp for event ordering.
#[derive(Debug, Clone, Copy, PartialEq, Eq, Structural, PartialOrd, Ord)]
pub struct EventTimestamp(NonNegativeInt);

impl ModelView for EventTimestamp {
    type V = u32;

    closed spec fn view(&self) -> u32 {
        self.0@
    }
}

impl EventTimestamp {
    /// Wraps `value`.
    pub fn new(value: NonNegativeInt) -> (r: Self)
        ensures
            r@ == value@,
    {
        EventTimestamp(value)
    }

    /// The wrapped value.
    pub fn into_inner(self) -> (r: NonNegativeInt)
        ensures
            r@ == self@,
    {
        self.0
    }
}

/// Reference to an event by ID.
#[derive(Debug, PartialEq, Eq, Hash)]
pub struct EventId(NonEmptyString);

impl ModelView for EventId {
    type V = Seq<char>;

    closed spec fn view(&self) -> Seq<char> {
        self.0@
    }
}

impl Clone for EventId {
    fn clone(&self) -> (r: Self)
        ensures
            r@ == self@,
    {
        EventId(self.0.clone())
    }
}

impl EventId {
    /// Wraps `value`.
    pub fn new(value: NonEmptyString) -> (r: Self)
        ensures
            r@ == value@,
    {
        EventId(value)
    }

    /// The wrapped value.
    pub fn into_inner(self) -> (r: NonEmptyString)
        ensures
            r@ == self@,
    {
        self.0
    }
}

/// Reference to a command by ID.
#[derive(Debug, PartialEq, Eq, Hash)]
pub struct CommandId(NonEmptyString);

impl ModelView for CommandId {
    type V = Seq<char>;

    closed spec fn view(&self) -> Seq<char> {
        self.0@
    }
}

impl Clone for CommandId {
    fn clone(&self) -> (r: Self)
        ensures
            r@ == self@,
    {
        CommandId(self.0.clone())
    }
}

impl CommandId {
    /// Wraps `value`.
    pub fn new(value: NonEmptyString) -> (r: Self)
        ensures
            r@ == value@,
    {
        CommandId(value)
    }

    /// The wrapped value.
    pub fn into_inner(self) -> (r: NonEmptyString)
        ensures
            r@ == self@,
    {
        self.0
    }
}

/// Reference to a projection by ID.
#[derive(Debug, PartialEq, Eq, Hash)]
pub struct ProjectionId(NonEmptyString);

impl ModelView for ProjectionId {
    type V = Seq<char>;

    closed spec fn view(&self) -> Seq<char> {
        self.0@
    }
}

impl Clone for ProjectionId {
    fn clone(&self) -> (r: Self)
        ensures
            r@ == self@,
    {
        ProjectionId(self.0.clone())
    }
}

impl ProjectionId {
    /// Wraps `value`.
    pub fn new(value: NonEmptyString) -> (r: Self)
        ensures
            r@ == value@,
    {
        ProjectionId(value)
    }

    /// The wrapped value.
    pub fn into_inner(self) -> (r: NonEmptyString)
        ensures
            r@ == self@,
    {
        self.0
    }
}

/// Field name in a data schema.
#[derive(Debug, PartialEq, Eq, Hash)]
pub struct FieldName(NonEmptyString);

impl ModelView for FieldName {
    type V = Seq<char>;

    closed spec fn view(&self) -> Seq<char> {
        self.0@
    }
}

impl Clone for FieldName {
    fn clone(&self) -> (r: Self)
        ensures
            r@ == self@,
    {
        FieldName(self.0.clone())
    }
}

impl FieldName {
    /// Wraps `value`.
    pub fn new(value: NonEmptyString) -> (r: Self)
        ensures
            r@ == value@,
    {
        FieldName(value)
    }

    /// The wrapped value.
    pub fn into_inner(self) -> (r: NonEmptyString)
        ensures
            r@ == self@,
    {
        self.0
    }
}

/// Field definition with type annotation and metadata.
#[derive(Debug, Clone)]
pub struct FieldDefinition {
    /// Type annotation for this field.
    pub field_type: FieldType,
    /// Whether this field is a stream identifier.
    pub stream_id: bool,
    /// Whether this field is generated by the system.
    pub generated: bool,
}

/// Type annotation for a field (e.g., "UserId", "EmailAddress").
#[derive(Debug, PartialEq, Eq)]
pub struct FieldType(NonEmptyString);

impl ModelView for FieldType {
    type V = Seq<char>;

    closed spec fn view(&self) -> Seq<char> {
        self.0@
    }
}

impl Clone for FieldType {
    fn clone(&self) -> (r: Self)
        ensures
            r@ == self@,
    {
        FieldType(self.0.clone())
    }
}

impl FieldType {
    /// Wraps `value`.
    pub fn new(value: NonEmptyString) -> (r: Self)
        ensures
            r@ == value@,
    {
        FieldType(value)
    }

    /// The wrapped value.
    pub fn into_inner(self) -> (r: NonEmptyString)
        ensures
            r@ == self@,
    {
        self.0
    }
}

/// Test scenario name.
#[derive(Debug, PartialEq, Eq, Hash)]
pub struct TestScenarioName(NonEmptyString);

impl ModelView for TestScenarioName {
    type V = Seq<char>;

    closed spec fn view(&self) -> Seq<char> {
        self.0@
    }
}

impl Clone for TestScenarioName {
    fn clone(&self) -> (r: Self)
        ensures
            r@ == self@,
    {
        TestScenarioName(self.0.clone())
    }
}

impl TestScenarioName {
    /// Wraps `value`.
    pub fn new(value: NonEmptyString) -> (r: Self)
        ensures
            r@ == value@,
    {
        TestScenarioName(value)
    }

    /// The wrapped value.
    pub fn into_inner(self) -> (r: NonEmptyString)
        ensures
            r@ == self@,
    {
        self.0
    }
}

/// Test scenario with Given/When/Then structure.
#[derive(Debug, Clone)]
pub struct TestScenario {
    /// Given: initial state (list of events).
    pub given: Vec<TestEvent>,
    /// When: action taken (command).
    pub when: NonEmpty<TestAction>,
    /// Then: expected outcome (events).
    pub then: NonEmpty<TestEvent>,
}

impl TestScenario {
    /// The events that are expected.
    pub open spec fn expected_events(self) -> Seq<TestEvent> {
        let TestScenario { then: expected, .. } = self;
        expected@
    }
}

/// Event reference in a test scenario.
#[derive(Debug, Clone)]
pub struct TestEvent {
    /// Name of the event.
    pub name: EventName,
    /// Field values using placeholder variables.
    pub fields: Vec<(FieldName, PlaceholderValue)>,
}

/// Action in a test scenario (command execution).
#[derive(Debug, Clone)]
pub struct TestAction {
    /// Name of the command.
    pub name: CommandName,
    /// Field values using placeholder variables.
    pub fields: Vec<(FieldName, PlaceholderValue)>,
}

/// Placeholder value in test scenarios (e.g., "A", "B", "C").
#[derive(Debug, PartialEq, Eq)]
pub struct PlaceholderValue(NonEmptyString);

impl ModelView for PlaceholderValue {
    type V = Seq<char>;

    closed spec fn view(&self) -> Seq<char> {
        self.0@
    }
}

impl Clone for PlaceholderValue {
    fn clone(&self) -> (r: Self)
        ensures
            r@ == self@,
    {
        PlaceholderValue(self.0.clone())
    }
}

impl PlaceholderValue {
    /// Wraps `value`.
    pub fn new(value: NonEmptyString) -> (r: Self)
        ensures
            r@ == value@,
    {
        PlaceholderValue(value)
    }

    /// The wrapped value.
    pub fn into_inner(self) -> (r: NonEmptyString)
        ensures
            r@ == self@,
    {
        self.0
    }
}

/// UI component definition.
#[derive(Debug, Clone)]
pub struct Component {
    /// Name of the component.
    pub name: ComponentName,
    /// Type of component or nested structure.
    pub component_type: ComponentType,
}

/// Component name.
#[derive(Debug, PartialEq, Eq)]
pub struct ComponentName(NonEmptyString);

impl ModelView for ComponentName {
    type V = Seq<char>;

    closed spec fn view(&self) -> Seq<char> {
        self.0@
    }
}

impl Clone for ComponentName {
    fn clone(&self) -> (r: Self)
        ensures
            r@ == self@,
    {
        ComponentName(self.0.clone())
    }
}

impl ComponentName {
    /// Wraps `value`.
    pub fn new(value: NonEmptyString) -> (r: Self)
        ensures
            r@ == value@,
    {
        ComponentName(value)
    }

    /// The wrapped value.
    pub fn into_inner(self) -> (r: NonEmptyString)
        ensures
            r@ == self@,
    {
        self.0
    }
}

/// Type of UI component.
#[derive(Debug, Clone)]
pub enum ComponentType {
    /// Simple component type (e.g., "Link", "TextInput").
    Simple(SimpleComponentType),
    /// Form component with fields and actions.
    Form {
        /// Form fields.
        fields: Vec<(FieldName, SimpleComponentType)>,
        /// Form actions (e.g., Submit).
        actions: NonEmpty<ActionName>,
    },
}

/// Simple component type name.
#[derive(Debug, PartialEq, Eq)]
pub struct SimpleComponentType(NonEmptyString);

impl ModelView for SimpleComponentType {
    type V = Seq<char>;

    closed spec fn view(&self) -> Seq<char> {
        self.0@
    }
}

impl Clone for SimpleComponentType {
    fn clone(&self) -> (r: Self)
        ensures
            r@ == self@,
    {
        SimpleComponentType(self.0.clone())
    }
}

impl SimpleComponentType {
    /// Wraps `value`.
    pub fn new(value: NonEmptyString) -> (r: Self)
        ensures
            r@ == value@,
    {
        SimpleComponentType(value)
    }

    /// The wrapped value.
    pub fn into_inner(self) -> (r: NonEmptyString)
        ensures
            r@ == self@,
    {
        self.0
    }
}

/// Action name (e.g., "Submit").
#[derive(Debug, PartialEq, Eq)]
pub struct ActionName(NonEmptyString);

impl ModelView for ActionName {
    type V = Seq<char>;

    closed spec fn view(&self) -> Seq<char> {
        self.0@
    }
}

impl Clone for ActionName {
    fn clone(&self) -> (r: Self)
        ensures
            r@ == self@,
    {
        ActionName(self.0.clone())
    }
}

impl ActionName {
    /// Wraps `value`.
    pub fn new(value: NonEmptyString) -> (r: Self)
        ensures
            r@ == value@,
    {
        ActionName(value)
    }

    /// The wrapped value.
    pub fn into_inner(self) -> (r: NonEmptyString)
        ensures
            r@ == self@,
    {
        self.0
    }
}

/// Output specification for queries.
#[derive(Debug, Clone)]
pub enum OutputSpec {
    /// Single output structure.
    Single(Vec<(FieldName, FieldType)>),
    /// One of multiple possible outputs.
    OneOf(Vec<(OutputCaseName, OutputCase)>),
}

/// Name of an output case.
#[derive(Debug, PartialEq, Eq, Hash)]
pub struct OutputCaseName(NonEmptyString);

impl ModelView for OutputCaseName {
    type V = Seq<char>;

    closed spec fn view(&self) -> Seq<char> {
        self.0@
    }
}

impl Clone for OutputCaseName {
    fn clone(&self) -> (r: Self)
        ensures
            r@ == self@,
    {
        OutputCaseName(self.0.clone())
    }
}

impl OutputCaseName {
    /// Wraps `value`.
    pub fn new(value: NonEmptyString) -> (r: Self)
        ensures
            r@ == value@,
    {
        OutputCaseName(value)
    }

    /// The wrapped value.
    pub fn into_inner(self) -> (r: NonEmptyString)
        ensures
            r@ == self@,
    {
        self.0
    }
}

/// An output case definition.
#[derive(Debug, Clone)]
pub enum OutputCase {
    /// Success case with fields.
    Fields(Vec<(FieldName, FieldType)>),
    /// Error case with error type.
    Error(ErrorTypeName),
}

/// Error type name.
#[derive(Debug, PartialEq, Eq)]
pub struct ErrorTypeName(NonEmptyString);

impl ModelView for ErrorTypeName {
    type V = Seq<char>;

    closed spec fn view(&self) -> Seq<char> {
        self.0@
    }
}

impl Clone for ErrorTypeName {
    fn clone(&self) -> (r: Self)
        ensures
            r@ == self@,
    {
        ErrorTypeName(self.0.clone())
    }
}

impl ErrorTypeName {
    /// Wraps `value`.
    pub fn new(value: NonEmptyString) -> (r: Self)
        ensures
            r@ == value@,
    {
        ErrorTypeName(value)
    }

    /// The wrapped value.
    pub fn into_inner(self) -> (r: NonEmptyString)
        ensures
            r@ == self@,
    {
        self.0
    }
}

} // verus!
