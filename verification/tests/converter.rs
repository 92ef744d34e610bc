use event_modeler::event_model::converter::{convert_to_diagram, count_entities, ConversionError};
use event_modeler::infrastructure::parsing::simple_parser::{
    ParsedConnector, ParsedEntity, ParsedEventModel, ParsedSwimlane,
};
use event_modeler::infrastructure::types::{Identifier, NonEmptyString};

#[test]
fn converts_minimal_parsed_model() {
    let parsed = ParsedEventModel {
        title: NonEmptyString::parse("Test Model".to_string()).unwrap(),
        swimlanes: vec![ParsedSwimlane {
            name: NonEmptyString::parse("System".to_string()).unwrap(),
            entities: vec![ParsedEntity::Event(
                NonEmptyString::parse("TestEvent".to_string()).unwrap(),
            )],
        }],
        connectors: vec![],
    };

    let result = convert_to_diagram(parsed);
    assert!(result.is_ok());

    let diagram = result.unwrap();
    assert_eq!(diagram.metadata.title.into_inner().as_str(), "Test Model");
    assert_eq!(diagram.swimlanes.len(), 1);
    assert_eq!(diagram.slices.len(), 1);
}

#[test]
fn counts_entities_correctly() {
    let parsed = ParsedEventModel {
        title: NonEmptyString::parse("Complex Model".to_string()).unwrap(),
        swimlanes: vec![
            ParsedSwimlane {
                name: NonEmptyString::parse("Customer".to_string()).unwrap(),
                entities: vec![
                    ParsedEntity::Command(
                        NonEmptyString::parse("PlaceOrder".to_string()).unwrap(),
                    ),
                    ParsedEntity::Event(
                        NonEmptyString::parse("OrderPlaced".to_string()).unwrap(),
                    ),
                ],
            },
            ParsedSwimlane {
                name: NonEmptyString::parse("System".to_string()).unwrap(),
                entities: vec![
                    ParsedEntity::Projection(
                        NonEmptyString::parse("OrderList".to_string()).unwrap(),
                    ),
                    ParsedEntity::Policy(
                        NonEmptyString::parse("ProcessPayment".to_string()).unwrap(),
                    ),
                ],
            },
        ],
        connectors: vec![],
    };

    let info = count_entities(&parsed);
    assert_eq!(info.command_count, 1);
    assert_eq!(info.event_count, 1);
    assert_eq!(info.projection_count, 1);
    assert_eq!(info.automation_count, 1);
}

#[test]
fn errors_on_empty_swimlanes() {
    let parsed = ParsedEventModel {
        title: NonEmptyString::parse("Empty Model".to_string()).unwrap(),
        swimlanes: vec![],
        connectors: vec![],
    };

    let result = convert_to_diagram(parsed);
    assert!(matches!(result, Err(ConversionError::NoSwimlanes)));
}

#[test]
fn errors_on_unknown_entity_in_connector() {
    let parsed = ParsedEventModel {
        title: NonEmptyString::parse("Test Model".to_string()).unwrap(),
        swimlanes: vec![ParsedSwimlane {
            name: NonEmptyString::parse("System".to_string()).unwrap(),
            entities: vec![ParsedEntity::Event(
                NonEmptyString::parse("TestEvent".to_string()).unwrap(),
            )],
        }],
        connectors: vec![ParsedConnector {
            from: Identifier::parse("UnknownEntity".to_string()).unwrap(),
            to: Identifier::parse("TestEvent".to_string()).unwrap(),
        }],
    };

    let result = convert_to_diagram(parsed);
    assert!(matches!(
        result,
        Err(ConversionError::UnknownEntityInConnector(_))
    ));
}
