use event_modeler::event_model::yaml_types as domain;
use event_modeler::infrastructure::parsing::yaml_converter::{convert_yaml_to_domain, ConversionError};
use event_modeler::infrastructure::parsing::yaml_parser::{
    YamlCommand, YamlComplexComponent, YamlComponent, YamlEvent, YamlEventModel, YamlField, YamlQuery,
    YamlQueryOutput, YamlQueryVariant, YamlSwimlane, YamlTestScenario, YamlTestStep, YamlView,
};
use indexmap::IndexMap;

fn s(v: &str) -> String {
    v.to_string()
}

fn model(workflow: &str, lanes: Vec<(&str, &str)>) -> YamlEventModel {
    YamlEventModel {
        version: None,
        workflow: s(workflow),
        swimlanes: lanes.into_iter().map(|(id, name)| YamlSwimlane::Mapped(vec![(s(id), s(name))])).collect(),
        events: vec![],
        commands: vec![],
        views: vec![],
        projections: vec![],
        queries: vec![],
        automations: vec![],
        slices: IndexMap::new(),
    }
}

fn step(entity: &str, fields: Vec<(&str, &str)>) -> YamlTestStep {
    YamlTestStep { step: vec![(s(entity), fields.into_iter().map(|(k, v)| (s(k), s(v))).collect())] }
}

#[test]
fn converts_minimal_event_model() {
    let parsed = model("Test Workflow", vec![("user", "User Interface"), ("backend", "Backend System")]);
    let result = convert_yaml_to_domain(parsed);

    assert!(result.is_ok());
    let model = result.unwrap();
    assert_eq!(model.workflow.into_inner().into_inner(), "Test Workflow");
    assert_eq!(model.swimlanes.len(), 2);
}

#[test]
fn converts_events_with_validation() {
    let mut parsed = model("Test", vec![("backend", "Backend")]);
    parsed.events.push((
        s("UserCreated"),
        YamlEvent {
            description: s("A new user was created"),
            swimlane: s("backend"),
            data: vec![
                (s("userId"), YamlField::Complex { field_type: s("UserId"), stream_id: true, generated: false }),
                (s("email"), YamlField::Simple(s("EmailAddress"))),
            ],
        },
    ));
    let result = convert_yaml_to_domain(parsed);

    assert!(result.is_ok());
    let model = result.unwrap();
    assert_eq!(model.events.len(), 1);

    let event = model.events.iter().next().unwrap();
    assert_eq!(event.0.clone().into_inner().into_inner(), "UserCreated");
    assert_eq!(event.1.description.clone().into_inner().into_inner(), "A new user was created");
    assert_eq!(event.1.data.len(), 2);
}

#[test]
fn rejects_unknown_swimlane() {
    let mut parsed = model("Test", vec![("backend", "Backend")]);
    parsed.events.push((
        s("UserCreated"),
        YamlEvent { description: s("A new user was created"), swimlane: s("unknown"), data: vec![] },
    ));
    let result = convert_yaml_to_domain(parsed);

    assert!(result.is_err());
    match result.unwrap_err() {
        ConversionError::UnknownSwimlane(name) => assert_eq!(name, "unknown"),
        _ => panic!("Expected UnknownSwimlane error"),
    }
}

#[test]
fn converts_commands_with_tests() {
    let mut parsed = model("Test", vec![("backend", "Backend")]);
    let scenario = YamlTestScenario {
        given: vec![],
        when: vec![step("CreateUser", vec![("email", "A")])],
        then: vec![step("UserCreated", vec![("email", "A")])],
    };
    parsed.commands.push((
        s("CreateUser"),
        YamlCommand {
            description: s("Create a new user"),
            swimlane: s("backend"),
            data: vec![(s("email"), YamlField::Simple(s("EmailAddress")))],
            tests: vec![(s("happy_path"), scenario)],
        },
    ));
    let result = convert_yaml_to_domain(parsed);

    assert!(result.is_ok());
    let model = result.unwrap();
    assert_eq!(model.commands.len(), 1);

    let command = model.commands.iter().next().unwrap();
    assert_eq!(command.1.tests.len(), 1);

    let test = command.1.tests.iter().next().unwrap();
    assert_eq!(test.0.clone().into_inner().into_inner(), "happy_path");
    assert_eq!(test.1.given.len(), 0);
    assert_eq!(test.1.when.len(), 1);
    assert_eq!(test.1.expected().len(), 1);
}

#[test]
fn converts_view_components() {
    let mut parsed = model("Test", vec![("ui", "UI")]);
    parsed.views.push((
        s("LoginScreen"),
        YamlView {
            description: s("User login screen"),
            swimlane: s("ui"),
            components: vec![
                YamlComponent::Simple { component: vec![(s("Title"), s("Label"))] },
                YamlComponent::Complex {
                    component: vec![(
                        s("LoginForm"),
                        YamlComplexComponent {
                            component_type: s("Form"),
                            fields: vec![(s("email"), s("TextInput")), (s("password"), s("PasswordInput"))],
                            actions: vec![s("Submit")],
                        },
                    )],
                },
            ],
        },
    ));
    let result = convert_yaml_to_domain(parsed);

    assert!(result.is_ok());
    let model = result.unwrap();
    assert_eq!(model.views.len(), 1);

    let view = model.views.iter().next().unwrap();
    assert_eq!(view.1.components.len(), 2);
}

#[test]
fn converts_query_with_one_of_outputs() {
    let mut parsed = model("Test", vec![("backend", "Backend")]);
    parsed.queries.push((
        s("GetUser"),
        YamlQuery {
            swimlane: s("backend"),
            inputs: vec![(s("userId"), s("UserId"))],
            outputs: YamlQueryOutput {
                one_of: vec![
                    (s("success"), YamlQueryVariant::Complex(vec![(s("user"), s("UserData"))])),
                    (s("notFound"), YamlQueryVariant::Simple(s("NotFoundError"))),
                ],
            },
        },
    ));
    let result = convert_yaml_to_domain(parsed);

    assert!(result.is_ok());
    let model = result.unwrap();
    let query = model.queries.iter().next().unwrap();

    match &query.1.outputs {
        domain::OutputSpec::OneOf(cases) => {
            assert_eq!(cases.len(), 2);
        },
        _ => panic!("Expected OneOf output spec"),
    }
}

#[test]
fn converts_slices_with_connections() {
    let mut parsed = model("Test", vec![("ui", "UI")]);
    parsed.slices.insert(
        s("UserRegistration"),
        vec![s("LoginScreen.CreateAccountLink -> CreateAccount"), s("CreateAccount -> UserCreated")],
    );
    let result = convert_yaml_to_domain(parsed);

    assert!(result.is_ok());
    let model = result.unwrap();
    assert_eq!(model.slices.len(), 1);

    let slice = model.slices.iter().next().unwrap();
    assert_eq!(slice.0.clone().into_inner().into_inner(), "UserRegistration");
    assert_eq!(slice.1.len(), 2);
}

#[test]
fn rejects_empty_collections() {
    let parsed = model("Test", vec![]);
    let result = convert_yaml_to_domain(parsed);

    assert!(result.is_err());
    match result.unwrap_err() {
        ConversionError::EmptyCollection(name) => assert_eq!(name, "swimlanes"),
        _ => panic!("Expected EmptyCollection error"),
    }
}

#[test]
fn rejects_empty_strings() {
    let parsed = model("", vec![("test", "Test")]);
    let result = convert_yaml_to_domain(parsed);

    assert!(result.is_err());
    match result.unwrap_err() {
        ConversionError::EmptyField(name) => assert_eq!(name, "workflow"),
        _ => panic!("Expected EmptyField error"),
    }
}
