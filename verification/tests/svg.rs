use event_modeler::diagram::svg::svg_fits_check;
use event_modeler::diagram::{render_to_svg, EventModelDiagram};
use event_modeler::event_model::yaml_types::{
    AutomationDefinition, AutomationName, CommandDefinition, CommandName, Connection, Description, EntityReference,
    EventDefinition, EventName, SliceName, Swimlane, SwimlaneId, SwimlaneName, WorkflowName, YamlEventModel,
};
use event_modeler::infrastructure::types::{NonEmpty, NonEmptyString};

fn text(s: &str) -> NonEmptyString {
    NonEmptyString::parse(s.to_string()).unwrap()
}

fn lane(id: &str, name: &str) -> Swimlane {
    Swimlane { id: SwimlaneId::new(text(id)), name: SwimlaneName::new(text(name)) }
}

fn command(name: &str, lane_id: &str) -> (CommandName, CommandDefinition) {
    (
        CommandName::new(text(name)),
        CommandDefinition {
            description: Description::new(text("does something")),
            swimlane: SwimlaneId::new(text(lane_id)),
            data: vec![],
            tests: vec![],
        },
    )
}

fn event(name: &str, lane_id: &str) -> (EventName, EventDefinition) {
    (
        EventName::new(text(name)),
        EventDefinition {
            description: Description::new(text("something happened")),
            swimlane: SwimlaneId::new(text(lane_id)),
            data: vec![],
        },
    )
}

fn model(
    lanes: Vec<Swimlane>,
    commands: Vec<(CommandName, CommandDefinition)>,
    events: Vec<(EventName, EventDefinition)>,
    automations: Vec<(AutomationName, AutomationDefinition)>,
    slices: Vec<(SliceName, NonEmpty<Connection>)>,
) -> YamlEventModel {
    let mut lanes = lanes;
    let head = lanes.remove(0);
    YamlEventModel {
        version: None,
        workflow: WorkflowName::new(text("Order Flow")),
        swimlanes: NonEmpty::from_head_and_tail(head, lanes),
        events,
        commands,
        views: vec![],
        projections: vec![],
        queries: vec![],
        automations,
        slices,
    }
}

fn render(m: YamlEventModel) -> String {
    let diagram = EventModelDiagram::from_yaml_model(m).unwrap();
    render_to_svg(&diagram).unwrap()
}

const HEADER_START: &str = "<?xml version=\"1.0\" encoding=\"UTF-8\"?>\n<svg xmlns=\"http://www.w3.org/2000/svg\" viewBox=\"0 0 ";

#[test]
fn renders_a_command_and_its_event_side_by_side() {
    let slices = vec![(
        SliceName::new(text("Ordering")),
        NonEmpty::singleton(Connection {
            from: EntityReference::Command(CommandName::new(text("PlaceOrder"))),
            to: EntityReference::Event(EventName::new(text("OrderPlaced"))),
        }),
    )];
    let svg = render(model(
        vec![lane("ui", "User Interface")],
        vec![command("PlaceOrder", "ui")],
        vec![event("OrderPlaced", "ui")],
        vec![],
        slices,
    ));
    let expected = String::new()
        + HEADER_START
        + "380 300\">\n  <!-- Arrow marker definition -->\n  <defs>\n    <marker id=\"arrowhead\" markerWidth=\"10\" markerHeight=\"7\" refX=\"9\" refY=\"3.5\" orient=\"auto\">\n      <polygon points=\"0 0, 10 3.5, 0 7\" fill=\"#333333\" />\n    </marker>\n  </defs>\n  \n  <!-- Canvas background -->\n  <rect x=\"0\" y=\"0\" width=\"380\" height=\"300\" fill=\"#f8f8f8\" stroke=\"none\"/>\n  \n  <!-- Workflow title -->\n  <text x=\"20\" y=\"35\" font-family=\"Arial, sans-serif\" font-size=\"12\" font-weight=\"normal\" fill=\"#333333\">\n    Order Flow\n  </text>\n"
        + "  <!-- Slice headers -->\n  <text x=\"230\" y=\"68\" font-family=\"Arial, sans-serif\" font-size=\"11\" fill=\"#333333\" text-anchor=\"middle\">\n    Ordering\n  </text>\n  <line x1=\"80\" y1=\"80\" x2=\"380\" y2=\"80\" stroke=\"#cccccc\" stroke-width=\"1\"/>\n"
        + "  <!-- Swimlanes -->\n  <line x1=\"0\" y1=\"80\" x2=\"380\" y2=\"80\" stroke=\"#cccccc\" stroke-width=\"1\"/>\n  <text x=\"40\" y=\"180\" font-family=\"Arial, sans-serif\" font-size=\"10\" fill=\"#333333\" text-anchor=\"middle\" transform=\"rotate(-90 40 180)\">\n    User Interface\n  </text>\n  <line x1=\"80\" y1=\"80\" x2=\"80\" y2=\"280\" stroke=\"#cccccc\" stroke-width=\"1\"/>\n  <line x1=\"0\" y1=\"280\" x2=\"380\" y2=\"280\" stroke=\"#cccccc\" stroke-width=\"1\"/>\n"
        + "  <!-- Entities -->\n  <rect x=\"100\" y=\"150\" width=\"120\" height=\"60\" fill=\"#4a90e2\" stroke=\"#cccccc\" stroke-width=\"1\"/>\n  <text x=\"160\" y=\"184\" font-family=\"Arial, sans-serif\" font-size=\"10\" fill=\"#ffffff\" text-anchor=\"middle\">Place Order</text>\n  <rect x=\"240\" y=\"150\" width=\"120\" height=\"60\" fill=\"#9b59b6\" stroke=\"#cccccc\" stroke-width=\"1\"/>\n  <text x=\"300\" y=\"184\" font-family=\"Arial, sans-serif\" font-size=\"10\" fill=\"#ffffff\" text-anchor=\"middle\">Order Placed</text>\n"
        + "  <!-- Connections -->\n  <path d=\"M 250 180 L 390 180\" fill=\"none\" stroke=\"#333333\" stroke-width=\"2\" marker-end=\"url(#arrowhead)\" />\n</svg>";
    assert_eq!(svg, expected);
}

#[test]
fn a_diagram_without_slices_keeps_the_minimum_width() {
    let svg = render(model(vec![lane("ui", "User Interface")], vec![], vec![], vec![], vec![]));
    assert!(svg.starts_with(&(String::new() + HEADER_START + "1200 300\">")));
    assert!(!svg.contains("Slice headers"));
    assert!(svg.ends_with("  <!-- Entities -->\n  <!-- Connections -->\n</svg>"));
}

#[test]
fn long_names_wrap_and_tall_boxes_grow_their_swimlane() {
    let slices = vec![(
        SliceName::new(text("Intake")),
        NonEmpty::singleton(Connection {
            from: EntityReference::Command(CommandName::new(text("RegisterNewCustomerAccountRequest"))),
            to: EntityReference::Command(CommandName::new(text("RegisterNewCustomerAccountRequest"))),
        }),
    )];
    let svg = render(model(
        vec![lane("ui", "User Interface")],
        vec![command("RegisterNewCustomerAccountRequest", "ui")],
        vec![],
        vec![],
        slices,
    ));
    // "Register New Customer Account Request" wraps into three lines of at
    // most 16 characters: 3 * 12 + 20 = 56, so the box keeps 60 pixels.
    assert!(svg.contains(">Register New</text>"));
    assert!(svg.contains(">Customer Account</text>"));
    assert!(svg.contains(">Request</text>"));
    // A lone entity is centred in its 300 pixel slice: 80 + (300 - 120) / 2.
    assert!(svg.contains("<rect x=\"170\" y=\"150\" width=\"120\" height=\"60\""));
}

#[test]
fn automations_are_drawn_with_a_gear() {
    let slices = vec![(
        SliceName::new(text("Robots")),
        NonEmpty::singleton(Connection {
            from: EntityReference::Automation(AutomationName::new(text("Sync"))),
            to: EntityReference::Automation(AutomationName::new(text("Sync"))),
        }),
    )];
    let svg = render(model(
        vec![lane("bots", "Automations")],
        vec![],
        vec![],
        vec![(AutomationName::new(text("Sync")), AutomationDefinition { swimlane: SwimlaneId::new(text("bots")) })],
        slices,
    ));
    // Width: 120 + 2 * 10; height: 30 + 5 + 12 + 20.
    assert!(svg.contains("\u{2699}\u{fe0f}</text>"));
    let expected_text = "<text x=\"230\" y=\"";
    assert!(svg.contains(expected_text));
    assert!(svg.contains(">Sync</text>"));
}

#[test]
fn unknown_entities_are_not_drawn() {
    let slices = vec![(
        SliceName::new(text("Ordering")),
        NonEmpty::singleton(Connection {
            from: EntityReference::Command(CommandName::new(text("Missing"))),
            to: EntityReference::Event(EventName::new(text("AlsoMissing"))),
        }),
    )];
    let svg = render(model(vec![lane("ui", "User Interface")], vec![], vec![], vec![], slices));
    assert!(svg.contains("  <!-- Entities -->\n  <!-- Connections -->\n</svg>"));
}

#[test]
fn small_diagrams_fit() {
    let m = model(vec![lane("ui", "User Interface")], vec![command("PlaceOrder", "ui")], vec![], vec![], vec![]);
    let diagram = EventModelDiagram::from_yaml_model(m).unwrap();
    assert!(svg_fits_check(&diagram));
}

#[test]
fn names_too_long_to_measure_do_not_fit() {
    let long = "A".repeat(0x8_0001);
    let m = model(vec![lane("ui", "User Interface")], vec![command(&long, "ui")], vec![], vec![], vec![]);
    let diagram = EventModelDiagram::from_yaml_model(m).unwrap();
    assert!(!svg_fits_check(&diagram));
}
