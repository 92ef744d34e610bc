use event_modeler::infrastructure::parsing::simple_lexer::{Lexer, TokenKind};
use event_modeler::infrastructure::parsing::simple_parser::{EventModelParser, ParseError, ParsedEntity};

#[test]
fn lexer_tokenizes_title_section() {
    let input = "Title: My Event Model";
    let mut lexer = Lexer::new(input);

    assert_eq!(lexer.next_token().unwrap().kind, TokenKind::Title);
    assert_eq!(lexer.next_token().unwrap().kind, TokenKind::Colon);
    // After Title:, we get individual tokens
    assert_eq!(
        lexer.next_token().unwrap().kind,
        TokenKind::Text("My".to_string())
    );
    // "Event" is recognized as a keyword even in title context
    assert_eq!(lexer.next_token().unwrap().kind, TokenKind::Event);
    assert_eq!(
        lexer.next_token().unwrap().kind,
        TokenKind::Text("Model".to_string())
    );
    assert!(lexer.next_token().is_none());
}

#[test]
fn lexer_tokenizes_swimlane_definition() {
    let input = "Swimlane: Customer
- Command: PlaceOrder
- Event: OrderPlaced
";
    let mut lexer = Lexer::new(input);

    assert_eq!(lexer.next_token().unwrap().kind, TokenKind::Swimlane);
    assert_eq!(lexer.next_token().unwrap().kind, TokenKind::Colon);
    assert_eq!(
        lexer.next_token().unwrap().kind,
        TokenKind::Text("Customer".to_string())
    );
    assert_eq!(lexer.next_token().unwrap().kind, TokenKind::Newline);
    assert_eq!(lexer.next_token().unwrap().kind, TokenKind::Dash);
    assert_eq!(lexer.next_token().unwrap().kind, TokenKind::Command);
    assert_eq!(lexer.next_token().unwrap().kind, TokenKind::Colon);
    assert_eq!(
        lexer.next_token().unwrap().kind,
        TokenKind::Text("PlaceOrder".to_string())
    );
    assert_eq!(lexer.next_token().unwrap().kind, TokenKind::Newline);
    assert_eq!(lexer.next_token().unwrap().kind, TokenKind::Dash);
    assert_eq!(lexer.next_token().unwrap().kind, TokenKind::Event);
    assert_eq!(lexer.next_token().unwrap().kind, TokenKind::Colon);
    assert_eq!(
        lexer.next_token().unwrap().kind,
        TokenKind::Text("OrderPlaced".to_string())
    );
    assert_eq!(lexer.next_token().unwrap().kind, TokenKind::Newline);
    assert!(lexer.next_token().is_none());
}

#[test]
fn lexer_tracks_line_and_column_numbers() {
    let input = "Title: Test\nSwimlane: System";
    let mut lexer = Lexer::new(input);

    let token = lexer.next_token().unwrap();
    assert_eq!(token.line, 1);
    assert_eq!(token.column, 1);

    lexer.next_token(); // Colon
    lexer.next_token(); // Text
    lexer.next_token(); // Newline

    let token = lexer.next_token().unwrap();
    assert_eq!(token.line, 2);
    assert_eq!(token.column, 1);
}

#[test]
fn lexer_handles_indented_content() {
    let input = "Swimlane: Test
  - Command: DoSomething
- Event: SomethingDone
";
    let mut lexer = Lexer::new(input);

    // Skip to indented content
    for _ in 0..4 {
        lexer.next_token();
    }

    assert_eq!(lexer.next_token().unwrap().kind, TokenKind::Indent(2));
    assert_eq!(lexer.next_token().unwrap().kind, TokenKind::Dash);
}

#[test]
fn lexer_handles_connector_syntax() {
    let input = "OrderPlaced -> UpdateInventory";
    let mut lexer = Lexer::new(input);

    assert_eq!(
        lexer.next_token().unwrap().kind,
        TokenKind::Text("OrderPlaced".to_string())
    );
    assert_eq!(lexer.next_token().unwrap().kind, TokenKind::Arrow);
    assert_eq!(
        lexer.next_token().unwrap().kind,
        TokenKind::Text("UpdateInventory".to_string())
    );
}

#[test]
fn lexer_handles_all_entity_types() {
    let entity_types = vec![
        ("Command:", TokenKind::Command),
        ("Event:", TokenKind::Event),
        ("Projection:", TokenKind::Projection),
        ("Policy:", TokenKind::Policy),
        ("External System:", TokenKind::ExternalSystem),
        ("Aggregate:", TokenKind::Aggregate),
    ];

    for (input, expected) in entity_types {
        let mut lexer = Lexer::new(input);
        assert_eq!(lexer.next_token().unwrap().kind, expected);
        assert_eq!(lexer.next_token().unwrap().kind, TokenKind::Colon);
    }
}

#[test]
fn parser_requires_title_section_first() {
    let input = "Swimlane: Test";
    let parser = EventModelParser::new();
    let result = parser.parse(input);

    match result {
        Err(ParseError::MissingTitle) => (),
        _ => panic!("Expected MissingTitle error"),
    }
}

#[test]
fn parser_parses_minimal_valid_model() {
    let input = "Title: Simple Model
Swimlane: System
- Event: SystemStarted
";

    let parser = EventModelParser::new();
    let result = parser.parse(input);
    assert!(result.is_ok());

    let model = result.unwrap();
    assert_eq!(model.title.as_str(), "Simple Model");
    assert_eq!(model.swimlanes.len(), 1);
    assert_eq!(model.swimlanes[0].name.as_str(), "System");
    assert_eq!(model.swimlanes[0].entities.len(), 1);
}

#[test]
fn parser_parses_complete_model() {
    let input = "Title: Order Processing System
Swimlane: Customer
- Command: PlaceOrder
- Event: OrderPlaced

Swimlane: Order Service
- Aggregate: Order
- Policy: OrderValidation
- Event: OrderValidated
- Projection: OrderSummary

Swimlane: External
- External System: Payment Gateway
";

    let parser = EventModelParser::new();
    let result = parser.parse(input);
    if let Err(e) = &result {
        panic!("Parse error: {e:?}");
    }
    assert!(result.is_ok());

    let model = result.unwrap();
    assert_eq!(model.title.as_str(), "Order Processing System");
    assert_eq!(model.swimlanes.len(), 3);

    // Verify Customer swimlane
    let customer = &model.swimlanes[0];
    assert_eq!(customer.name.as_str(), "Customer");
    assert_eq!(customer.entities.len(), 2);

    // Verify Order Service swimlane
    let service = &model.swimlanes[1];
    assert_eq!(service.name.as_str(), "Order Service");
    assert_eq!(service.entities.len(), 4);

    // Verify External swimlane
    let external = &model.swimlanes[2];
    assert_eq!(external.name.as_str(), "External");
    assert_eq!(external.entities.len(), 1);
}

#[test]
fn parser_handles_connectors() {
    let input = "Title: With Connectors
Swimlane: System
- Command: StartProcess
- Event: ProcessStarted

ProcessStarted -> StartProcess
";

    let parser = EventModelParser::new();
    let result = parser.parse(input);
    assert!(result.is_ok());

    let model = result.unwrap();
    assert_eq!(model.connectors.len(), 1);

    let connector = &model.connectors[0];
    assert_eq!(connector.from.as_str(), "ProcessStarted");
    assert_eq!(connector.to.as_str(), "StartProcess");
}

#[test]
fn parser_enforces_unique_entity_names() {
    let input = "Title: Duplicate Names
Swimlane: System
- Event: DuplicateName
- Command: DuplicateName
";

    let parser = EventModelParser::new();
    let result = parser.parse(input);
    match result {
        Err(ParseError::DuplicateEntity(name)) => {
            assert_eq!(name, "DuplicateName");
        }
        _ => panic!("Expected DuplicateEntity error"),
    }
}

#[test]
fn parser_validates_connector_references() {
    let input = "Title: Invalid Connector
Swimlane: System
- Event: ValidEvent

ValidEvent -> NonExistentEntity
";

    let parser = EventModelParser::new();
    let result = parser.parse(input);
    match result {
        Err(ParseError::UnknownEntity(name)) => {
            assert_eq!(name, "NonExistentEntity");
        }
        _ => panic!("Expected UnknownEntity error"),
    }
}

#[test]
fn parser_provides_line_numbers_in_errors() {
    let input = "Title: Error Test
Swimlane: System
Invalid: Entity
";

    let parser = EventModelParser::new();
    let result = parser.parse(input);
    match result {
        Err(ParseError::UnexpectedToken { line, column, .. }) => {
            assert_eq!(line, 3);
            assert!(column > 0);
        }
        _ => panic!("Expected UnexpectedToken error with position"),
    }
}

#[test]
fn parser_handles_empty_swimlanes() {
    let input = "Title: Empty Swimlane
Swimlane: EmptyLane

Swimlane: HasContent
- Event: SomeEvent
";

    let parser = EventModelParser::new();
    let result = parser.parse(input);
    assert!(result.is_ok());

    let model = result.unwrap();
    assert_eq!(model.swimlanes.len(), 2);
    assert_eq!(model.swimlanes[0].entities.len(), 0);
    assert_eq!(model.swimlanes[1].entities.len(), 1);
}

#[test]
fn parser_preserves_entity_order() {
    let input = "Title: Order Test
Swimlane: System
- Command: First
- Event: Second
- Policy: Third
- Projection: Fourth
";

    let parser = EventModelParser::new();
    let result = parser.parse(input);
    assert!(result.is_ok());

    let model = result.unwrap();
    let entities = &model.swimlanes[0].entities;

    assert_eq!(entities.len(), 4);
    // Verify order is preserved
    match &entities[0] {
        ParsedEntity::Command(name) => {
            assert_eq!(name.as_str(), "First");
        }
        _ => panic!("Expected Command"),
    }
    match &entities[1] {
        ParsedEntity::Event(name) => {
            assert_eq!(name.as_str(), "Second");
        }
        _ => panic!("Expected Event"),
    }
}
