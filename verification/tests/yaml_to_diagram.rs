use event_modeler::event_model::yaml_to_diagram_converter::convert_yaml_to_diagram;
use event_modeler::event_model::yaml_types::{
    CommandDefinition, CommandName, Connection, Description, EntityReference, EventDefinition, EventName,
    FieldDefinition, FieldName, FieldType, PlaceholderValue, SliceName, Swimlane, SwimlaneId, SwimlaneName,
    TestAction, TestEvent, TestScenario, TestScenarioName, WorkflowName, YamlEventModel,
};
use event_modeler::infrastructure::types::{NonEmpty, NonEmptyString};

fn text(s: &str) -> NonEmptyString {
    NonEmptyString::parse(s.to_string()).unwrap()
}

fn base_model(workflow: &str, lane_id: &str, lane_name: &str) -> YamlEventModel {
    YamlEventModel {
        version: None,
        workflow: WorkflowName::new(text(workflow)),
        swimlanes: NonEmpty::singleton(Swimlane {
            id: SwimlaneId::new(text(lane_id)),
            name: SwimlaneName::new(text(lane_name)),
        }),
        events: vec![],
        commands: vec![],
        views: vec![],
        projections: vec![],
        queries: vec![],
        automations: vec![],
        slices: vec![],
    }
}

#[test]
fn converts_minimal_yaml_model_to_diagram() {
    let mut yaml_model = base_model("Test Workflow", "test_lane", "Test Lane");
    yaml_model.events.push((
        EventName::new(text("TestEvent")),
        EventDefinition {
            description: Description::new(text("A test event")),
            swimlane: SwimlaneId::new(text("test_lane")),
            data: vec![],
        },
    ));

    let result = convert_yaml_to_diagram(yaml_model);

    assert!(result.is_ok());
    let diagram = result.unwrap();
    assert_eq!(diagram.swimlanes.len(), 1);
}

#[test]
fn converts_yaml_with_commands() {
    let mut yaml_model = base_model("Slice Test", "test_lane", "Test Lane");
    yaml_model.commands.push((
        CommandName::new(text("TestCommand")),
        CommandDefinition {
            description: Description::new(text("Test command")),
            swimlane: SwimlaneId::new(text("test_lane")),
            data: vec![],
            tests: vec![],
        },
    ));
    yaml_model.events.push((
        EventName::new(text("TestEvent")),
        EventDefinition {
            description: Description::new(text("Test event")),
            swimlane: SwimlaneId::new(text("test_lane")),
            data: vec![],
        },
    ));
    yaml_model.slices.push((
        SliceName::new(text("TestFlow")),
        NonEmpty::singleton(Connection {
            from: EntityReference::Command(CommandName::new(text("TestCommand"))),
            to: EntityReference::Event(EventName::new(text("TestEvent"))),
        }),
    ));

    let result = convert_yaml_to_diagram(yaml_model);

    assert!(result.is_ok());
    let diagram = result.unwrap();
    assert_eq!(diagram.swimlanes.len(), 1);
}

fn field(name: &str, field_type: &str, stream_id: bool, generated: bool) -> (FieldName, FieldDefinition) {
    (
        FieldName::new(text(name)),
        FieldDefinition { field_type: FieldType::new(text(field_type)), stream_id, generated },
    )
}

fn value(name: &str, v: &str) -> (FieldName, PlaceholderValue) {
    (FieldName::new(text(name)), PlaceholderValue::new(text(v)))
}

#[test]
fn converts_command_with_data_schema_and_tests() {
    let mut yaml_model = base_model("Command Test", "customer", "Customer");
    let scenario = TestScenario {
        given: vec![TestEvent { name: EventName::new(text("SystemInitialized")), fields: vec![] }],
        when: NonEmpty::singleton(TestAction {
            name: CommandName::new(text("CreateAccount")),
            fields: vec![value("accountId", "A"), value("email", "B")],
        }),
        then: NonEmpty::singleton(TestEvent {
            name: EventName::new(text("AccountCreated")),
            fields: vec![value("accountId", "A"), value("email", "B")],
        }),
    };
    yaml_model.commands.push((
        CommandName::new(text("CreateAccount")),
        CommandDefinition {
            description: Description::new(text("Create a new account")),
            swimlane: SwimlaneId::new(text("customer")),
            data: vec![field("accountId", "AccountId", true, true), field("email", "EmailAddress", false, false)],
            tests: vec![(TestScenarioName::new(text("successful_account_creation")), scenario)],
        },
    ));

    let result = convert_yaml_to_diagram(yaml_model);

    assert!(result.is_ok());
    let diagram = result.unwrap();
    assert_eq!(diagram.swimlanes.len(), 1);
}

#[test]
fn a_model_without_slices_gets_one_default_slice() {
    let mut yaml_model = base_model("Defaults", "lane", "Lane");
    yaml_model.events.push((
        EventName::new(text("Happened")),
        EventDefinition {
            description: Description::new(text("it happened")),
            swimlane: SwimlaneId::new(text("lane")),
            data: vec![],
        },
    ));
    let diagram = convert_yaml_to_diagram(yaml_model).unwrap();
    assert_eq!(diagram.slices.len(), 1);
    assert_eq!(diagram.slices.head().name.clone().into_inner().as_str(), "Default");
    assert_eq!(diagram.metadata.title.clone().into_inner().as_str(), "Defaults");
}
