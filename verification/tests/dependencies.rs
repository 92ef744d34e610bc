use event_modeler::diagram::layout::dependencies::{
    break_cycles, build_dependency_graph, extract_entity_type, is_temporal_connection,
    topological_sort, topological_sort_impl,
};
use event_modeler::diagram::layout::LayoutError;
use event_modeler::event_model::converter::convert_to_diagram;
use event_modeler::event_model::diagram::{
    Connector, HorizontalPosition, Slice, SliceBoundaries, SliceId, SliceName,
};
use event_modeler::event_model::entities::EntityId;
use event_modeler::infrastructure::parsing::simple_parser::{
    ParsedEntity, ParsedEventModel, ParsedSwimlane,
};
use event_modeler::infrastructure::types::{NonEmpty, NonEmptyString, NonNegativeInt};

fn text(s: &str) -> NonEmptyString {
    NonEmptyString::parse(s.to_string()).unwrap()
}

fn id(s: &str) -> EntityId {
    EntityId::new(text(s))
}

fn name_of(e: &EntityId) -> String {
    e.clone().into_inner().into_inner()
}

fn graph(entries: &[(&str, &[&str])]) -> Vec<(EntityId, Vec<EntityId>)> {
    entries
        .iter()
        .map(|(k, deps)| (id(k), deps.iter().map(|d| id(d)).collect()))
        .collect()
}

fn names(order: &[EntityId]) -> Vec<String> {
    order.iter().map(name_of).collect()
}

fn position(order: &[String], name: &str) -> usize {
    order.iter().position(|n| n == name).unwrap()
}

#[test]
fn entity_type_is_the_prefix() {
    assert_eq!(extract_entity_type(&id("command_CreateUser")), "command");
    assert_eq!(extract_entity_type(&id("event_User_Created")), "event");
    assert_eq!(extract_entity_type(&id("CreateUser")), "unknown");
}

#[test]
fn only_command_to_event_and_event_to_projection_are_temporal() {
    assert!(is_temporal_connection(&id("command_A"), &id("event_B")));
    assert!(is_temporal_connection(&id("event_B"), &id("projection_C")));
    assert!(!is_temporal_connection(&id("view_A"), &id("command_B")));
    assert!(!is_temporal_connection(&id("event_B"), &id("view_C")));
    assert!(!is_temporal_connection(&id("A"), &id("B")));
}

#[test]
fn sorts_a_chain_in_dependency_order() {
    let g = graph(&[("c", &["b"]), ("b", &["a"]), ("a", &[])]);
    let order = names(&topological_sort_impl(&g).unwrap());
    assert_eq!(order, vec!["a", "b", "c"]);
}

#[test]
fn every_dependency_comes_first() {
    let g = graph(&[("d", &["b", "c"]), ("b", &["a"]), ("c", &["a"]), ("a", &[]), ("e", &[])]);
    let order = names(&topological_sort_impl(&g).unwrap());
    assert_eq!(order.len(), 5);
    assert!(position(&order, "a") < position(&order, "b"));
    assert!(position(&order, "a") < position(&order, "c"));
    assert!(position(&order, "b") < position(&order, "d"));
    assert!(position(&order, "c") < position(&order, "d"));
}

#[test]
fn a_cycle_has_no_order() {
    let g = graph(&[("a", &["b"]), ("b", &["a"])]);
    assert!(matches!(topological_sort_impl(&g), Err(LayoutError::CircularDependency)));
    let self_loop = graph(&[("a", &["a"])]);
    assert!(matches!(topological_sort_impl(&self_loop), Err(LayoutError::CircularDependency)));
}

#[test]
fn an_unknown_dependency_has_no_order() {
    let g = graph(&[("a", &["missing"])]);
    assert!(matches!(topological_sort_impl(&g), Err(LayoutError::CircularDependency)));
    assert!(matches!(topological_sort(&g), Err(LayoutError::CircularDependency)));
}

#[test]
fn breaking_cycles_drops_the_edge_back() {
    let mut g = graph(&[("a", &["b"]), ("b", &["a"])]);
    break_cycles(&mut g);
    // The search from `a` reaches `b`, whose dependency on `a` leads back.
    assert_eq!(names(&g[0].1), vec!["b"]);
    assert!(g[1].1.is_empty());
    assert_eq!(names(&topological_sort_impl(&g).unwrap()), vec!["b", "a"]);
}

#[test]
fn sorting_breaks_cycles_first() {
    let g = graph(&[("a", &["c"]), ("b", &["a"]), ("c", &["b"]), ("d", &["c"])]);
    let order = names(&topological_sort(&g).unwrap());
    assert_eq!(order.len(), 4);
    assert!(position(&order, "c") < position(&order, "d"));
}

#[test]
fn acyclic_graphs_sort_without_changes() {
    let g = graph(&[("b", &["a"]), ("a", &[])]);
    assert_eq!(names(&topological_sort(&g).unwrap()), vec!["a", "b"]);
}

#[test]
fn dependency_graph_follows_temporal_connections() {
    let parsed = ParsedEventModel {
        title: text("Orders"),
        swimlanes: vec![
            ParsedSwimlane {
                name: text("Customer"),
                entities: vec![ParsedEntity::Command(text("command_Place"))],
            },
            ParsedSwimlane {
                name: text("System"),
                entities: vec![
                    ParsedEntity::Event(text("event_Placed")),
                    ParsedEntity::Projection(text("projection_List")),
                ],
            },
        ],
        connectors: vec![],
    };
    let mut diagram = convert_to_diagram(parsed).unwrap();
    let slice = Slice {
        id: SliceId::new(text("s")),
        name: SliceName::new(text("Ordering")),
        boundaries: SliceBoundaries {
            start_x: HorizontalPosition::new(NonNegativeInt::new(0)),
            end_x: HorizontalPosition::new(NonNegativeInt::new(100)),
        },
        entities: NonEmpty::singleton(id("command_Place")),
        connections: vec![
            Connector { from: id("command_Place"), to: id("event_Placed"), label: None },
            Connector { from: id("event_Placed"), to: id("projection_List"), label: None },
            Connector { from: id("projection_List"), to: id("command_Place"), label: None },
        ],
        acceptance_criteria: None,
    };
    diagram.slices = NonEmpty::singleton(slice);
    let (g, lanes) = build_dependency_graph(&diagram);
    let keys: Vec<String> = g.iter().map(|(k, _)| name_of(k)).collect();
    assert_eq!(keys, vec!["command_Place", "event_Placed", "projection_List"]);
    assert!(g[0].1.is_empty());
    assert_eq!(names(&g[1].1), vec!["command_Place"]);
    assert_eq!(names(&g[2].1), vec!["event_Placed"]);
    let homes: Vec<String> = lanes.iter().map(|(_, l)| l.clone().into_inner().into_inner()).collect();
    assert_eq!(homes, vec!["Customer", "System", "System"]);
    let order = names(&topological_sort(&g).unwrap());
    assert_eq!(order, vec!["command_Place", "event_Placed", "projection_List"]);
}

#[test]
fn breaking_cycles_keeps_edges_off_cycles() {
    let mut g = graph(&[("a", &[]), ("b", &["a"]), ("c", &["c"])]);
    break_cycles(&mut g);
    assert!(g[0].1.is_empty());
    assert_eq!(names(&g[1].1), vec!["a"]);
    assert!(g[2].1.is_empty());
    let order = names(&topological_sort(&graph(&[("a", &[]), ("b", &["a"]), ("c", &["c"])])).unwrap());
    assert!(position(&order, "a") < position(&order, "b"));
}
