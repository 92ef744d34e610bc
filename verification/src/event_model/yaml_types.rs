//! Domain model of the YAML Event Model format, after validation.
//!
//! Keyed collections of the format (events by name, fields by name, ...)
//! are held as lists of (key, value) pairs, in the order in which they were
//! converted.

use crate::infrastructure::types::{NonEmpty, NonEmptyString};
use crate::infrastructure::text::{chars_of, string_from_chars};
use vstd::prelude::*;

verus! {

/// A validated YAML event model.
#[derive(Debug, Clone)]
pub struct YamlEventModel {
    /// Schema version of the file, if it gave one.
    pub version: Option<SchemaVersion>,
    /// Name of the workflow.
    pub workflow: WorkflowName,
    /// Swimlanes, in order.
    pub swimlanes: NonEmpty<Swimlane>,
    /// Events by name.
    pub events: Vec<(EventName, EventDefinition)>,
    /// Commands by name.
    pub commands: Vec<(CommandName, CommandDefinition)>,
    /// Views by name.
    pub views: Vec<(ViewName, ViewDefinition)>,
    /// Projections by name.
    pub projections: Vec<(ProjectionName, ProjectionDefinition)>,
    /// Queries by name.
    pub queries: Vec<(QueryName, QueryDefinition)>,
    /// Automations by name.
    pub automations: Vec<(AutomationName, AutomationDefinition)>,
    /// Slices by name, in the order of the file, each with its connections.
    pub slices: Vec<(SliceName, NonEmpty<Connection>)>,
}

/// A slice: its name and the connections it shows.
#[derive(Debug, Clone)]
pub struct Slice {
    /// Name of the slice.
    pub name: SliceName,
    /// Connections between entities in this slice.
    pub connections: NonEmpty<Connection>,
}

/// A swimlane: identifier and display name.
#[derive(Debug, Clone)]
pub struct Swimlane {
    /// Identifier used by entity definitions.
    pub id: SwimlaneId,
    /// Display name.
    pub name: SwimlaneName,
}

/// An event definition.
#[derive(Debug, Clone)]
pub struct EventDefinition {
    /// What the event means.
    pub description: Description,
    /// Swimlane the event belongs to.
    pub swimlane: SwimlaneId,
    /// Data fields by name.
    pub data: Vec<(FieldName, FieldDefinition)>,
}

/// A command definition.
#[derive(Debug, Clone)]
pub struct CommandDefinition {
    /// What the command does.
    pub description: Description,
    /// Swimlane the command belongs to.
    pub swimlane: SwimlaneId,
    /// Data fields by name.
    pub data: Vec<(FieldName, FieldDefinition)>,
    /// Test scenarios by name.
    pub tests: Vec<(TestScenarioName, TestScenario)>,
}

/// A view definition.
#[derive(Debug, Clone)]
pub struct ViewDefinition {
    /// What the view shows.
    pub description: Description,
    /// Swimlane the view belongs to.
    pub swimlane: SwimlaneId,
    /// UI components of the view.
    pub components: NonEmpty<Component>,
}

/// A projection definition.
#[derive(Debug, Clone)]
pub struct ProjectionDefinition {
    /// What the projection holds.
    pub description: Description,
    /// Swimlane the projection belongs to.
    pub swimlane: SwimlaneId,
    /// Field types by name.
    pub fields: Vec<(FieldName, FieldType)>,
}

/// A query definition.
#[derive(Debug, Clone)]
pub struct QueryDefinition {
    /// Swimlane the query belongs to.
    pub swimlane: SwimlaneId,
    /// Input types by name.
    pub inputs: Vec<(FieldName, FieldType)>,
    /// What the query returns.
    pub outputs: OutputSpec,
}

/// An automation definition.
#[derive(Debug, Clone)]
pub struct AutomationDefinition {
    /// Swimlane the automation belongs to.
    pub swimlane: SwimlaneId,
}

/// A data field definition.
#[derive(Debug, Clone)]
pub struct FieldDefinition {
    /// Type of the field.
    pub field_type: FieldType,
    /// Whether the field identifies the stream.
    pub stream_id: bool,
    /// Whether the field's value is generated.
    pub generated: bool,
}

/// A test scenario in Given/When/Then form.
#[derive(Debug, Clone)]
pub struct TestScenario {
    /// Events that happened before.
    pub given: Vec<TestEvent>,
    /// Commands that are issued.
    pub when: NonEmpty<TestAction>,
    /// Events that are expected.
    pub then: NonEmpty<TestEvent>,
}

impl TestScenario {
    /// The events that are expected.
    pub open spec fn expected_events(self) -> Seq<TestEvent> {
        let TestScenario { then: expected, .. } = self;
        expected@
    }

    /// The events that are expected.
    pub fn expected(&self) -> (r: &NonEmpty<TestEvent>)
        ensures
            r@ == self.expected_events(),
    {
        let TestScenario { then: expected, .. } = self;
        expected
    }
}

/// An event in a test scenario.
#[derive(Debug, Clone)]
pub struct TestEvent {
    /// Name of the event.
    pub name: EventName,
    /// Field values by name.
    pub fields: Vec<(FieldName, PlaceholderValue)>,
}

/// A command in a test scenario.
#[derive(Debug, Clone)]
pub struct TestAction {
    /// Name of the command.
    pub name: CommandName,
    /// Field values by name.
    pub fields: Vec<(FieldName, PlaceholderValue)>,
}

/// A UI component of a view.
#[derive(Debug, Clone)]
pub struct Component {
    /// Name of the component.
    pub name: ComponentName,
    /// What kind of component it is.
    pub component_type: ComponentType,
}

/// The kind of a UI component.
#[derive(Debug, Clone)]
pub enum ComponentType {
    /// A component of a simple named type.
    Simple(SimpleComponentType),
    /// A form with fields and actions.
    Form {
        /// Field types by name.
        fields: Vec<(FieldName, SimpleComponentType)>,
        /// Actions the form offers.
        actions: NonEmpty<ActionName>,
    },
}

/// What a query returns.
#[derive(Debug, Clone)]
pub enum OutputSpec {
    /// A single set of fields.
    Single(Vec<(FieldName, FieldType)>),
    /// One of several named cases.
    OneOf(Vec<(OutputCaseName, OutputCase)>),
}

/// One case of a query's output.
#[derive(Debug, Clone)]
pub enum OutputCase {
    /// A set of fields.
    Fields(Vec<(FieldName, FieldType)>),
    /// An error type.
    Error(ErrorTypeName),
}

/// A connection between two entities.
#[derive(Debug, Clone)]
pub struct Connection {
    /// Where the connection starts.
    pub from: EntityReference,
    /// Where the connection ends.
    pub to: EntityReference,
}

/// A reference to an entity, by kind.
#[derive(Debug, Clone, PartialEq, Eq)]
pub enum EntityReference {
    /// An event.
    Event(EventName),
    /// A command.
    Command(CommandName),
    /// A view, or a path into one (`View.Component.Action`).
    View(ViewPath),
    /// A projection.
    Projection(ProjectionName),
    /// A query.
    Query(QueryName),
    /// An automation.
    Automation(AutomationName),
}

impl EntityReference {
    /// Reads an entity reference from a string. A dotted string such as
    /// `LoginScreen.CreateAccountLink` is a path into a view. Any other
    /// reference needs the kind of entity it names, which only its context
    /// knows, so it is not read here; nor is an empty string.
    pub fn parse(s: &str) -> (r: Option<Self>)
        ensures
            s@.contains('.') ==> (r matches Some(EntityReference::View(p)) && p@ == s@),
            !s@.contains('.') ==> r is None,
    {
        let chars = chars_of(s);
        let n = chars.len();
        let mut k: usize = 0;
        while k < n
            invariant
                n == chars@.len(),
                chars@ == s@,
                k <= n,
                forall|j: int| 0 <= j < k ==> chars@[j] != '.',
            decreases n - k,
        {
            if chars[k] == '.' {
                let text = string_from_chars(chars.as_slice());
                return match NonEmptyString::parse(text) {
                    Ok(v) => Some(EntityReference::View(ViewPath::new(v))),
                    Err(_) => None,
                };
            }
            k = k + 1;
        }
        None
    }
}


/// Schema version of a file.
#[derive(Debug, PartialEq, Eq)]
pub struct SchemaVersion(NonEmptyString);

impl View for SchemaVersion {
    type V = Seq<char>;

    closed spec fn view(&self) -> Seq<char> {
        self.0@
    }
}

impl Clone for SchemaVersion {
    fn clone(&self) -> (r: Self)
        ensures
            r@ == self@,
    {
        SchemaVersion(self.0.clone())
    }
}

impl SchemaVersion {
    /// Wraps `value`.
    pub fn new(value: NonEmptyString) -> (r: Self)
        ensures
            r@ == value@,
    {
        SchemaVersion(value)
    }

    /// The wrapped value.
    pub fn into_inner(self) -> (r: NonEmptyString)
        ensures
            r@ == self@,
    {
        self.0
    }
}

/// Name of a workflow.
#[derive(Debug, PartialEq, Eq)]
pub struct WorkflowName(NonEmptyString);

impl View for WorkflowName {
    type V = Seq<char>;

    closed spec fn view(&self) -> Seq<char> {
        self.0@
    }
}

impl Clone for WorkflowName {
    fn clone(&self) -> (r: Self)
        ensures
            r@ == self@,
    {
        WorkflowName(self.0.clone())
    }
}

impl WorkflowName {
    /// Wraps `value`.
    pub fn new(value: NonEmptyString) -> (r: Self)
        ensures
            r@ == value@,
    {
        WorkflowName(value)
    }

    /// The wrapped value.
    pub fn into_inner(self) -> (r: NonEmptyString)
        ensures
            r@ == self@,
    {
        self.0
    }
}

/// Identifier of a swimlane.
#[derive(Debug, PartialEq, Eq, Hash)]
pub struct SwimlaneId(NonEmptyString);

impl View for SwimlaneId {
    type V = Seq<char>;

    closed spec fn view(&self) -> Seq<char> {
        self.0@
    }
}

impl Clone for SwimlaneId {
    fn clone(&self) -> (r: Self)
        ensures
            r@ == self@,
    {
        SwimlaneId(self.0.clone())
    }
}

impl SwimlaneId {
    /// Wraps `value`.
    pub fn new(value: NonEmptyString) -> (r: Self)
        ensures
            r@ == value@,
    {
        SwimlaneId(value)
    }

    /// The wrapped value.
    pub fn into_inner(self) -> (r: NonEmptyString)
        ensures
            r@ == self@,
    {
        self.0
    }
}

/// Display name of a swimlane.
#[derive(Debug, PartialEq, Eq)]
pub struct SwimlaneName(NonEmptyString);

impl View for SwimlaneName {
    type V = Seq<char>;

    closed spec fn view(&self) -> Seq<char> {
        self.0@
    }
}

impl Clone for SwimlaneName {
    fn clone(&self) -> (r: Self)
        ensures
            r@ == self@,
    {
        SwimlaneName(self.0.clone())
    }
}

impl SwimlaneName {
    /// Wraps `value`.
    pub fn new(value: NonEmptyString) -> (r: Self)
        ensures
            r@ == value@,
    {
        SwimlaneName(value)
    }

    /// The wrapped value.
    pub fn into_inner(self) -> (r: NonEmptyString)
        ensures
            r@ == self@,
    {
        self.0
    }
}

/// Type of a data field.
#[derive(Debug, PartialEq, Eq)]
pub struct FieldType(NonEmptyString);

impl View for FieldType {
    type V = Seq<char>;

    closed spec fn view(&self) -> Seq<char> {
        self.0@
    }
}

impl Clone for FieldType {
    fn clone(&self) -> (r: Self)
        ensures
            r@ == self@,
    {
        FieldType(self.0.clone())
    }
}

impl FieldType {
    /// Wraps `value`.
    pub fn new(value: NonEmptyString) -> (r: Self)
        ensures
            r@ == value@,
    {
        FieldType(value)
    }

    /// The wrapped value.
    pub fn into_inner(self) -> (r: NonEmptyString)
        ensures
            r@ == self@,
    {
        self.0
    }
}

/// Name of a data field.
#[derive(Debug, PartialEq, Eq, Hash)]
pub struct FieldName(NonEmptyString);

impl View for FieldName {
    type V = Seq<char>;

    closed spec fn view(&self) -> Seq<char> {
        self.0@
    }
}

impl Clone for FieldName {
    fn clone(&self) -> (r: Self)
        ensures
            r@ == self@,
    {
        FieldName(self.0.clone())
    }
}

impl FieldName {
    /// Wraps `value`.
    pub fn new(value: NonEmptyString) -> (r: Self)
        ensures
            r@ == value@,
    {
        FieldName(value)
    }

    /// The wrapped value.
    pub fn into_inner(self) -> (r: NonEmptyString)
        ensures
            r@ == self@,
    {
        self.0
    }
}

/// Description of an entity.
#[derive(Debug, PartialEq, Eq)]
pub struct Description(NonEmptyString);

impl View for Description {
    type V = Seq<char>;

    closed spec fn view(&self) -> Seq<char> {
        self.0@
    }
}

impl Clone for Description {
    fn clone(&self) -> (r: Self)
        ensures
            r@ == self@,
    {
        Description(self.0.clone())
    }
}

impl Description {
    /// Wraps `value`.
    pub fn new(value: NonEmptyString) -> (r: Self)
        ensures
            r@ == value@,
    {
        Description(value)
    }

    /// The wrapped value.
    pub fn into_inner(self) -> (r: NonEmptyString)
        ensures
            r@ == self@,
    {
        self.0
    }
}

/// Name of an event.
#[derive(Debug, PartialEq, Eq, Hash)]
pub struct EventName(NonEmptyString);

impl View for EventName {
    type V = Seq<char>;

    closed spec fn view(&self) -> Seq<char> {
        self.0@
    }
}

impl Clone for EventName {
    fn clone(&self) -> (r: Self)
        ensures
            r@ == self@,
    {
        EventName(self.0.clone())
    }
}

impl EventName {
    /// Wraps `value`.
    pub fn new(value: NonEmptyString) -> (r: Self)
        ensures
            r@ == value@,
    {
        EventName(value)
    }

    /// The wrapped value.
    pub fn into_inner(self) -> (r: NonEmptyString)
        ensures
            r@ == self@,
    {
        self.0
    }
}

/// Name of a command.
#[derive(Debug, PartialEq, Eq, Hash)]
pub struct CommandName(NonEmptyString);

impl View for CommandName {
    type V = Seq<char>;

    closed spec fn view(&self) -> Seq<char> {
        self.0@
    }
}

impl Clone for CommandName {
    fn clone(&self) -> (r: Self)
        ensures
            r@ == self@,
    {
        CommandName(self.0.clone())
    }
}

impl CommandName {
    /// Wraps `value`.
    pub fn new(value: NonEmptyString) -> (r: Self)
        ensures
            r@ == value@,
    {
        CommandName(value)
    }

    /// The wrapped value.
    pub fn into_inner(self) -> (r: NonEmptyString)
        ensures
            r@ == self@,
    {
        self.0
    }
}

/// Name of a view.
#[derive(Debug, PartialEq, Eq, Hash)]
pub struct ViewName(NonEmptyString);

impl View for ViewName {
    type V = Seq<char>;

    closed spec fn view(&self) -> Seq<char> {
        self.0@
    }
}

impl Clone for ViewName {
    fn clone(&self) -> (r: Self)
        ensures
            r@ == self@,
    {
        ViewName(self.0.clone())
    }
}

impl ViewName {
    /// Wraps `value`.
    pub fn new(value: NonEmptyString) -> (r: Self)
        ensures
            r@ == value@,
    {
        ViewName(value)
    }

    /// The wrapped value.
    pub fn into_inner(self) -> (r: NonEmptyString)
        ensures
            r@ == self@,
    {
        self.0
    }
}

/// Name of a projection.
#[derive(Debug, PartialEq, Eq, Hash)]
pub struct ProjectionName(NonEmptyString);

impl View for ProjectionName {
    type V = Seq<char>;

    closed spec fn view(&self) -> Seq<char> {
        self.0@
    }
}

impl Clone for ProjectionName {
    fn clone(&self) -> (r: Self)
        ensures
            r@ == self@,
    {
        ProjectionName(self.0.clone())
    }
}

impl ProjectionName {
    /// Wraps `value`.
    pub fn new(value: NonEmptyString) -> (r: Self)
        ensures
            r@ == value@,
    {
        ProjectionName(value)
    }

    /// The wrapped value.
    pub fn into_inner(self) -> (r: NonEmptyString)
        ensures
            r@ == self@,
    {
        self.0
    }
}

/// Name of a query.
#[derive(Debug, PartialEq, Eq, Hash)]
pub struct QueryName(NonEmptyString);

impl View for QueryName {
    type V = Seq<char>;

    closed spec fn view(&self) -> Seq<char> {
        self.0@
    }
}

impl Clone for QueryName {
    fn clone(&self) -> (r: Self)
        ensures
            r@ == self@,
    {
        QueryName(self.0.clone())
    }
}

impl QueryName {
    /// Wraps `value`.
    pub fn new(value: NonEmptyString) -> (r: Self)
        ensures
            r@ == value@,
    {
        QueryName(value)
    }

    /// The wrapped value.
    pub fn into_inner(self) -> (r: NonEmptyString)
        ensures
            r@ == self@,
    {
        self.0
    }
}

/// Name of an automation.
#[derive(Debug, PartialEq, Eq, Hash)]
pub struct AutomationName(NonEmptyString);

impl View for AutomationName {
    type V = Seq<char>;

    closed spec fn view(&self) -> Seq<char> {
        self.0@
    }
}

impl Clone for AutomationName {
    fn clone(&self) -> (r: Self)
        ensures
            r@ == self@,
    {
        AutomationName(self.0.clone())
    }
}

impl AutomationName {
    /// Wraps `value`.
    pub fn new(value: NonEmptyString) -> (r: Self)
        ensures
            r@ == value@,
    {
        AutomationName(value)
    }

    /// The wrapped value.
    pub fn into_inner(self) -> (r: NonEmptyString)
        ensures
            r@ == self@,
    {
        self.0
    }
}

/// Name of a slice.
#[derive(Debug, PartialEq, Eq, Hash)]
pub struct SliceName(NonEmptyString);

impl View for SliceName {
    type V = Seq<char>;

    closed spec fn view(&self) -> Seq<char> {
        self.0@
    }
}

impl Clone for SliceName {
    fn clone(&self) -> (r: Self)
        ensures
            r@ == self@,
    {
        SliceName(self.0.clone())
    }
}

impl SliceName {
    /// Wraps `value`.
    pub fn new(value: NonEmptyString) -> (r: Self)
        ensures
            r@ == value@,
    {
        SliceName(value)
    }

    /// The wrapped value.
    pub fn into_inner(self) -> (r: NonEmptyString)
        ensures
            r@ == self@,
    {
        self.0
    }
}

/// Name of a test scenario.
#[derive(Debug, PartialEq, Eq, Hash)]
pub struct TestScenarioName(NonEmptyString);

impl View for TestScenarioName {
    type V = Seq<char>;

    closed spec fn view(&self) -> Seq<char> {
        self.0@
    }
}

impl Clone for TestScenarioName {
    fn clone(&self) -> (r: Self)
        ensures
            r@ == self@,
    {
        TestScenarioName(self.0.clone())
    }
}

impl TestScenarioName {
    /// Wraps `value`.
    pub fn new(value: NonEmptyString) -> (r: Self)
        ensures
            r@ == value@,
    {
        TestScenarioName(value)
    }

    /// The wrapped value.
    pub fn into_inner(self) -> (r: NonEmptyString)
        ensures
            r@ == self@,
    {
        self.0
    }
}

/// Placeholder value of a field in a test scenario.
#[derive(Debug, PartialEq, Eq)]
pub struct PlaceholderValue(NonEmptyString);

impl View for PlaceholderValue {
    type V = Seq<char>;

    closed spec fn view(&self) -> Seq<char> {
        self.0@
    }
}

impl Clone for PlaceholderValue {
    fn clone(&self) -> (r: Self)
        ensures
            r@ == self@,
    {
        PlaceholderValue(self.0.clone())
    }
}

impl PlaceholderValue {
    /// Wraps `value`.
    pub fn new(value: NonEmptyString) -> (r: Self)
        ensures
            r@ == value@,
    {
        PlaceholderValue(value)
    }

    /// The wrapped value.
    pub fn into_inner(self) -> (r: NonEmptyString)
        ensures
            r@ == self@,
    {
        self.0
    }
}

/// Name of a UI component.
#[derive(Debug, PartialEq, Eq)]
pub struct ComponentName(NonEmptyString);

impl View for ComponentName {
    type V = Seq<char>;

    closed spec fn view(&self) -> Seq<char> {
        self.0@
    }
}

impl Clone for ComponentName {
    fn clone(&self) -> (r: Self)
        ensures
            r@ == self@,
    {
        ComponentName(self.0.clone())
    }
}

impl ComponentName {
    /// Wraps `value`.
    pub fn new(value: NonEmptyString) -> (r: Self)
        ensures
            r@ == value@,
    {
        ComponentName(value)
    }

    /// The wrapped value.
    pub fn into_inner(self) -> (r: NonEmptyString)
        ensures
            r@ == self@,
    {
        self.0
    }
}

/// Type of a simple UI component.
#[derive(Debug, PartialEq, Eq)]
pub struct SimpleComponentType(NonEmptyString);

impl View for SimpleComponentType {
    type V = Seq<char>;

    closed spec fn view(&self) -> Seq<char> {
        self.0@
    }
}

impl Clone for SimpleComponentType {
    fn clone(&self) -> (r: Self)
        ensures
            r@ == self@,
    {
        SimpleComponentType(self.0.clone())
    }
}

impl SimpleComponentType {
    /// Wraps `value`.
    pub fn new(value: NonEmptyString) -> (r: Self)
        ensures
            r@ == value@,
    {
        SimpleComponentType(value)
    }

    /// The wrapped value.
    pub fn into_inner(self) -> (r: NonEmptyString)
        ensures
            r@ == self@,
    {
        self.0
    }
}

/// Name of a form action.
#[derive(Debug, PartialEq, Eq)]
pub struct ActionName(NonEmptyString);

impl View for ActionName {
    type V = Seq<char>;

    closed spec fn view(&self) -> Seq<char> {
        self.0@
    }
}

impl Clone for ActionName {
    fn clone(&self) -> (r: Self)
        ensures
            r@ == self@,
    {
        ActionName(self.0.clone())
    }
}

impl ActionName {
    /// Wraps `value`.
    pub fn new(value: NonEmptyString) -> (r: Self)
        ensures
            r@ == value@,
    {
        ActionName(value)
    }

    /// The wrapped value.
    pub fn into_inner(self) -> (r: NonEmptyString)
        ensures
            r@ == self@,
    {
        self.0
    }
}

/// Name of a query output case.
#[derive(Debug, PartialEq, Eq, Hash)]
pub struct OutputCaseName(NonEmptyString);

impl View for OutputCaseName {
    type V = Seq<char>;

    closed spec fn view(&self) -> Seq<char> {
        self.0@
    }
}

impl Clone for OutputCaseName {
    fn clone(&self) -> (r: Self)
        ensures
            r@ == self@,
    {
        OutputCaseName(self.0.clone())
    }
}

impl OutputCaseName {
    /// Wraps `value`.
    pub fn new(value: NonEmptyString) -> (r: Self)
        ensures
            r@ == value@,
    {
        OutputCaseName(value)
    }

    /// The wrapped value.
    pub fn into_inner(self) -> (r: NonEmptyString)
        ensures
            r@ == self@,
    {
        self.0
    }
}

/// Name of an error type.
#[derive(Debug, PartialEq, Eq)]
pub struct ErrorTypeName(NonEmptyString);

impl View for ErrorTypeName {
    type V = Seq<char>;

    closed spec fn view(&self) -> Seq<char> {
        self.0@
    }
}

impl Clone for ErrorTypeName {
    fn clone(&self) -> (r: Self)
        ensures
            r@ == self@,
    {
        ErrorTypeName(self.0.clone())
    }
}

impl ErrorTypeName {
    /// Wraps `value`.
    pub fn new(value: NonEmptyString) -> (r: Self)
        ensures
            r@ == value@,
    {
        ErrorTypeName(value)
    }

    /// The wrapped value.
    pub fn into_inner(self) -> (r: NonEmptyString)
        ensures
            r@ == self@,
    {
        self.0
    }
}

/// Path to a view or to a component inside it.
#[derive(Debug, PartialEq, Eq)]
pub struct ViewPath(NonEmptyString);

impl View for ViewPath {
    type V = Seq<char>;

    closed spec fn view(&self) -> Seq<char> {
        self.0@
    }
}

impl Clone for ViewPath {
    fn clone(&self) -> (r: Self)
        ensures
            r@ == self@,
    {
        ViewPath(self.0.clone())
    }
}

impl ViewPath {
    /// Wraps `value`.
    pub fn new(value: NonEmptyString) -> (r: Self)
        ensures
            r@ == value@,
    {
        ViewPath(value)
    }

    /// The wrapped value.
    pub fn into_inner(self) -> (r: NonEmptyString)
        ensures
            r@ == self@,
    {
        self.0
    }
}

} // verus!
