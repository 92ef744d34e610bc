use event_modeler::event_model::yaml_registry::{ValidationError, YamlEntityRegistry};
use event_modeler::event_model::yaml_types::{
    CommandDefinition, CommandName, Connection, Description, EntityReference, EventDefinition, EventName, SliceName,
    Swimlane, SwimlaneId, SwimlaneName, ViewPath, WorkflowName, YamlEventModel,
};
use event_modeler::infrastructure::types::{NonEmpty, NonEmptyString};

fn text(s: &str) -> NonEmptyString {
    NonEmptyString::parse(s.to_string()).unwrap()
}

fn cmd(n: &str) -> EntityReference {
    EntityReference::Command(CommandName::new(text(n)))
}

fn evt(n: &str) -> EntityReference {
    EntityReference::Event(EventName::new(text(n)))
}

fn registry() -> YamlEntityRegistry {
    let model = YamlEventModel {
        version: None,
        workflow: WorkflowName::new(text("Orders")),
        swimlanes: NonEmpty::singleton(Swimlane {
            id: SwimlaneId::new(text("lane")),
            name: SwimlaneName::new(text("Lane")),
        }),
        events: vec![(
            EventName::new(text("OrderPlaced")),
            EventDefinition {
                description: Description::new(text("placed")),
                swimlane: SwimlaneId::new(text("lane")),
                data: vec![],
            },
        )],
        commands: vec![(
            CommandName::new(text("PlaceOrder")),
            CommandDefinition {
                description: Description::new(text("place")),
                swimlane: SwimlaneId::new(text("lane")),
                data: vec![],
                tests: vec![],
            },
        )],
        views: vec![],
        projections: vec![],
        queries: vec![],
        automations: vec![],
        slices: vec![
            (
                SliceName::new(text("Ordering")),
                NonEmpty::from_head_and_tail(
                    Connection { from: cmd("PlaceOrder"), to: evt("OrderPlaced") },
                    vec![Connection { from: cmd("PlaceOrder"), to: evt("OrderShipped") }],
                ),
            ),
            (
                SliceName::new(text("Browsing")),
                NonEmpty::singleton(Connection {
                    from: EntityReference::View(ViewPath::new(text("Catalog.List"))),
                    to: cmd("PlaceOrder"),
                }),
            ),
        ],
    };
    YamlEntityRegistry::from_model(model)
}

#[test]
fn registry_counts_all_entities() {
    assert_eq!(registry().total_entity_count(), 2);
    let names = registry().all_entity_names();
    assert_eq!(names.events.len(), 1);
    assert_eq!(names.commands[0].clone().into_inner().as_str(), "PlaceOrder");
}

#[test]
fn sources_and_targets_are_listed_once_in_order() {
    let reg = registry();
    let sources = reg.find_source_entities();
    assert_eq!(sources.len(), 2);
    assert_eq!(sources[0], cmd("PlaceOrder"));
    let targets = reg.find_target_entities();
    assert_eq!(targets, vec![evt("OrderPlaced"), evt("OrderShipped"), cmd("PlaceOrder")]);
}

#[test]
fn connections_from_and_to_an_entity() {
    let reg = registry();
    assert_eq!(reg.find_connections_from(&cmd("PlaceOrder")).len(), 2);
    assert_eq!(reg.find_connections_to(&cmd("PlaceOrder")).len(), 1);
    assert_eq!(reg.find_connections_to(&evt("Nothing")).len(), 0);
}

#[test]
fn missing_entities_are_reported_with_their_slice() {
    let reg = registry();
    assert!(reg.validate_entity_reference(&cmd("PlaceOrder")).is_ok());
    assert_eq!(reg.validate_entity_reference(&evt("OrderShipped")), Err("Event 'OrderShipped' not found".to_string()));
    let errors = reg.validate_connections().unwrap_err();
    assert_eq!(errors.len(), 2);
    assert_eq!(errors[0].message(), "Invalid target in slice 'Ordering': Event 'OrderShipped' not found");
    assert_eq!(errors[1].message(), "Invalid source in slice 'Browsing': View 'Catalog' not found");
    assert!(matches!(errors[1], ValidationError::InvalidSource { .. }));
}
