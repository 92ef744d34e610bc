use event_modeler::diagram::routing::lead_lines::{EntityId, LeadDirection, LeadLine};
use event_modeler::diagram::routing::orthogonal_router::OrthogonalRouter;
use event_modeler::diagram::routing::{Point, Rectangle, RoutingConfig};

fn line(start: Point, end: Point, direction: LeadDirection, id: &str) -> LeadLine {
    LeadLine { start, end, direction, source_entity_id: EntityId::new(id) }
}

fn points_of(path: &event_modeler::diagram::routing::RoutePath) -> Vec<Point> {
    path.nodes.iter().into_iter().copied().collect()
}

#[test]
fn routes_around_a_corner() {
    let router = OrthogonalRouter::new(RoutingConfig::default());
    let lines = vec![
        line(Point::new(0, 5), Point::new(20, 5), LeadDirection::East, "from"),
        line(Point::new(10, 15), Point::new(10, 0), LeadDirection::North, "to"),
    ];
    let intersections = vec![Point::new(10, 5)];
    let (route, debug) = router.route_along(&lines, &intersections);
    let route = route.unwrap();
    assert_eq!(points_of(&route), vec![Point::new(0, 5), Point::new(10, 5), Point::new(10, 15)]);
    assert_eq!(route.total_cost, 20);
    assert_eq!(
        debug.graph_nodes,
        vec![Point::new(10, 5), Point::new(0, 5), Point::new(20, 5), Point::new(10, 15), Point::new(10, 0)]
    );
    assert_eq!(debug.edge_count, 4);
    assert_eq!(debug.source_node_count, 1);
    assert_eq!(debug.target_node_count, 1);
    assert_eq!(debug.intersections, intersections);
    assert_eq!(debug.lead_lines.len(), 2);
    assert_eq!(route.to_svg_path(), "M 0 5 L 10 5 L 10 15");
}

#[test]
fn no_route_between_separate_lines() {
    let router = OrthogonalRouter::new(RoutingConfig::default());
    let lines = vec![
        line(Point::new(0, 5), Point::new(20, 5), LeadDirection::East, "from"),
        line(Point::new(0, 50), Point::new(20, 50), LeadDirection::East, "to"),
    ];
    let (route, debug) = router.route_along(&lines, &Vec::new());
    assert!(route.is_none());
    assert_eq!(debug.edge_count, 2);
    assert_eq!(debug.graph_nodes.len(), 4);
}

#[test]
fn no_route_without_target_lines() {
    let router = OrthogonalRouter::new(RoutingConfig::default());
    let lines = vec![line(Point::new(0, 5), Point::new(20, 5), LeadDirection::East, "from")];
    let (route, debug) = router.route_along(&lines, &Vec::new());
    assert!(route.is_none());
    assert_eq!(debug.source_node_count, 1);
    assert_eq!(debug.target_node_count, 0);
}

#[test]
fn cheapest_of_several_starts() {
    let router = OrthogonalRouter::new(RoutingConfig::default());
    let lines = vec![
        line(Point::new(0, 0), Point::new(0, 40), LeadDirection::South, "from"),
        line(Point::new(0, 30), Point::new(30, 30), LeadDirection::East, "from"),
        line(Point::new(30, 0), Point::new(30, 40), LeadDirection::South, "to"),
    ];
    let intersections = vec![Point::new(0, 30), Point::new(30, 30)];
    let (route, _) = router.route_along(&lines, &intersections);
    let route = route.unwrap();
    // From the start (0, 30) the walk east costs 30, then 30 north to the target start.
    assert_eq!(route.total_cost, 60);
    let pts = points_of(&route);
    for pair in pts.windows(2) {
        assert!(pair[0].x == pair[1].x || pair[0].y == pair[1].y);
    }
    assert_eq!(pts.first(), Some(&Point::new(0, 30)));
    assert_eq!(pts.last(), Some(&Point::new(30, 0)));
}

#[test]
fn routing_entities_are_named_in_order() {
    let from = Rectangle::new(10, 50, 30, 20);
    let to = Rectangle::new(100, 50, 30, 20);
    let obstacles = vec![Rectangle::new(50, 40, 30, 40), Rectangle::new(60, 100, 10, 10)];
    let entities = OrthogonalRouter::routing_entities(&from, &to, &obstacles);
    let names: Vec<&str> = entities.iter().map(|e| e.id.as_str()).collect();
    assert_eq!(names, vec!["from", "to", "obstacle_0", "obstacle_1"]);
    assert_eq!(entities[3].bounds, Rectangle::new(60, 100, 10, 10));
}

#[test]
fn lead_lines_leave_every_entity() {
    let router = OrthogonalRouter::new(RoutingConfig::default());
    let from = Rectangle::new(10, 50, 30, 20);
    let to = Rectangle::new(100, 50, 30, 20);
    let canvas = Rectangle::new(0, 0, 200, 200);
    let entities = OrthogonalRouter::routing_entities(&from, &to, &[]);
    let lines = router.lead_lines_for(&entities, &canvas);
    assert!(lines.iter().any(|l| l.source_entity_id.as_str() == "from"));
    assert!(lines.iter().any(|l| l.source_entity_id.as_str() == "to"));
    for l in &lines {
        assert!(l.start.x == l.end.x || l.start.y == l.end.y);
    }
}

#[test]
fn entity_ids_are_equal_exactly_when_their_texts_are() {
    assert_eq!(EntityId::new("Order").as_str(), "Order");
    assert!(EntityId::new("Order") == EntityId::new("Order"));
    assert!(EntityId::new("Order") != EntityId::new("Orders"));
}

#[test]
fn routing_inputs_are_checked_before_routing() {
    let router = OrthogonalRouter::new(RoutingConfig::default());
    let canvas = Rectangle::new(0, 0, 1000, 1000);
    let entities = OrthogonalRouter::routing_entities(&Rectangle::new(10, 10, 50, 30), &Rectangle::new(200, 10, 50, 30), &[]);
    assert!(router.lead_lines_ok(&entities, &canvas));
    let huge = OrthogonalRouter::routing_entities(&Rectangle::new(u32::MAX - 5, 10, 50, 30), &Rectangle::new(200, 10, 50, 30), &[]);
    assert!(!router.lead_lines_ok(&huge, &canvas));
    let lines = router.lead_lines_for(&entities, &canvas);
    assert!(OrthogonalRouter::route_inputs_ok(&lines, &vec![Point::new(35, 5)]));
    assert!(!OrthogonalRouter::route_inputs_ok(&lines, &vec![Point::new(u32::MAX, 5)]));
}
