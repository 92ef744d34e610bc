use event_modeler::diagram::grid_routing::{LeadLine, RoutingGraph};
use event_modeler::diagram::routing::collision::CollisionDetector;
use event_modeler::diagram::routing::lead_lines::{
    EntityId, LeadDirection, LeadLineConfig, LeadLineGenerator, LeadOrigin, RoutingEntity,
};
use event_modeler::diagram::routing::{Direction, Point, Rectangle, RoutePath};
use event_modeler::infrastructure::types::NonEmpty;

#[test]
fn routing_test_point_manhattan_distance() {
    let p1 = Point::new(0, 0);
    let p2 = Point::new(3, 4);
    assert_eq!(p1.manhattan_distance(&p2), 7);
}

#[test]
fn routing_test_rectangle_center() {
    let rect = Rectangle::new(10, 20, 40, 30);
    assert_eq!(rect.center(), Point::new(30, 35));
}

#[test]
fn routing_test_rectangle_contains() {
    let rect = Rectangle::new(10, 10, 20, 20);
    assert!(rect.contains(&Point::new(15, 15)));
    assert!(!rect.contains(&Point::new(5, 5)));
}

#[test]
fn routing_test_rectangle_intersects() {
    let rect1 = Rectangle::new(0, 0, 10, 10);
    let rect2 = Rectangle::new(5, 5, 10, 10);
    let rect3 = Rectangle::new(20, 20, 10, 10);

    assert!(rect1.intersects(&rect2));
    assert!(!rect1.intersects(&rect3));
}

#[test]
fn test_lead_line_intersection() {
    let vertical = LeadLine::new(Point::new(10, 5), Direction::South, Point::new(10, 15));
    let horizontal = LeadLine::new(Point::new(5, 10), Direction::East, Point::new(15, 10));

    assert_eq!(vertical.intersection(&horizontal), Some(Point::new(10, 10)));
}

#[test]
fn test_routing_graph_add_node() {
    let mut graph = RoutingGraph::new();
    let node_id = graph.add_node(Point::new(10, 10));
    assert_eq!(node_id, 0);
    assert!(graph.nodes.contains_key(&node_id));
}

#[test]
fn routing_test_route_path_to_svg() {
    let points = NonEmpty::from_head_and_tail(
        Point::new(0, 0),
        vec![Point::new(10, 0), Point::new(10, 10)],
    );
    let path = RoutePath::new(points, 20);
    assert_eq!(path.to_svg_path(), "M 0 0 L 10 0 L 10 10");
}

#[test]
fn mod_test_point_manhattan_distance() {
    let p1 = Point::new(0, 0);
    let p2 = Point::new(3, 4);
    assert_eq!(p1.manhattan_distance(&p2), 7);
}

#[test]
fn mod_test_rectangle_center() {
    let rect = Rectangle::new(10, 20, 40, 30);
    assert_eq!(rect.center(), Point::new(30, 35));
}

#[test]
fn mod_test_rectangle_contains() {
    let rect = Rectangle::new(10, 10, 20, 20);
    assert!(rect.contains(&Point::new(15, 15)));
    assert!(!rect.contains(&Point::new(5, 5)));
}

#[test]
fn mod_test_rectangle_intersects() {
    let rect1 = Rectangle::new(0, 0, 10, 10);
    let rect2 = Rectangle::new(5, 5, 10, 10);
    let rect3 = Rectangle::new(20, 20, 10, 10);

    assert!(rect1.intersects(&rect2));
    assert!(!rect1.intersects(&rect3));
}

#[test]
fn mod_test_route_path_to_svg() {
    let points = NonEmpty::from_head_and_tail(
        Point::new(0, 0),
        vec![Point::new(10, 0), Point::new(10, 10)],
    );
    let path = RoutePath::new(points, 20);
    assert_eq!(path.to_svg_path(), "M 0 0 L 10 0 L 10 10");
}

#[test]
fn test_lead_origin_direction() {
    assert_eq!(LeadOrigin::TopCenter.direction(), LeadDirection::North);
    assert_eq!(LeadOrigin::CenterEast.direction(), LeadDirection::East);
}

#[test]
fn test_entity_lead_line_start() {
    let entity = RoutingEntity::new(EntityId::new("test"), Rectangle::new(100, 100, 50, 30));

    assert_eq!(entity.lead_line_start(LeadOrigin::TopCenter), Point::new(125, 100));
    assert_eq!(entity.lead_line_start(LeadOrigin::RightCenter), Point::new(150, 115));
    assert_eq!(entity.lead_line_start(LeadOrigin::BottomCenter), Point::new(125, 130));
    assert_eq!(entity.lead_line_start(LeadOrigin::LeftCenter), Point::new(100, 115));

    let center = Point::new(125, 115);
    assert_eq!(entity.lead_line_start(LeadOrigin::CenterNorth), center);
    assert_eq!(entity.lead_line_start(LeadOrigin::CenterEast), center);
}

#[test]
fn test_collision_detection_horizontal() {
    let detector = CollisionDetector::new(10);
    let start = Point::new(50, 100);

    let entities = vec![(EntityId::new("obstacle1"), Rectangle::new(100, 90, 30, 20))];

    let collisions =
        detector.detect_collisions(LeadDirection::East, start, &entities, &EntityId::new("source"));

    assert_eq!(collisions.len(), 1);
    assert_eq!(collisions[0].1.start, 90);
    assert_eq!(collisions[0].1.end, 140);
}

#[test]
fn test_no_collision() {
    let detector = CollisionDetector::new(10);
    let start = Point::new(50, 100);

    let entities = vec![(EntityId::new("obstacle1"), Rectangle::new(100, 150, 30, 20))];

    let collisions =
        detector.detect_collisions(LeadDirection::East, start, &entities, &EntityId::new("source"));

    assert_eq!(collisions.len(), 0);
}

#[test]
fn overlapping_rectangles_intersect_both_ways() {
    let a = Rectangle::new(0, 0, 10, 10);
    let b = Rectangle::new(9, 9, 5, 5);
    assert!(a.intersects(&b));
    assert!(b.intersects(&a));
    let c = Rectangle::new(10, 0, 5, 5);
    assert_eq!(a.intersects(&c), c.intersects(&a));
}

#[test]
fn crossing_lead_lines_meet_at_the_same_point_either_way() {
    let vertical = LeadLine::new(Point::new(10, 5), Direction::South, Point::new(10, 15));
    let horizontal = LeadLine::new(Point::new(5, 10), Direction::East, Point::new(15, 10));
    assert_eq!(vertical.intersection(&horizontal), horizontal.intersection(&vertical));
    let parallel = LeadLine::new(Point::new(20, 5), Direction::South, Point::new(20, 15));
    assert_eq!(vertical.intersection(&parallel), None);
}

#[test]
fn lead_lines_leave_each_edge_and_run_to_the_canvas_border() {
    let generator = LeadLineGenerator::new(LeadLineConfig::default());
    let entity = RoutingEntity::new(EntityId::new("a"), Rectangle::new(100, 100, 50, 30));
    let lines = generator.generate_lead_lines(&[entity]);
    let ends: Vec<(Point, Point)> = lines.iter().map(|l| (l.start, l.end)).collect();
    assert_eq!(
        ends,
        vec![
            (Point::new(125, 90), Point::new(125, 60)),
            (Point::new(125, 60), Point::new(125, 0)),
            (Point::new(160, 115), Point::new(190, 115)),
            (Point::new(190, 115), Point::new(5000, 115)),
            (Point::new(125, 140), Point::new(125, 170)),
            (Point::new(125, 170), Point::new(125, 3000)),
            (Point::new(90, 115), Point::new(60, 115)),
            (Point::new(60, 115), Point::new(0, 115)),
        ]
    );
    assert!(lines.iter().all(|l| l.source_entity_id.as_str() == "a"));
}

#[test]
fn lead_lines_stop_at_the_nearest_entity_in_the_way() {
    let generator = LeadLineGenerator::new(LeadLineConfig::default());
    let a = RoutingEntity::new(EntityId::new("a"), Rectangle::new(100, 100, 50, 30));
    let b = RoutingEntity::new(EntityId::new("b"), Rectangle::new(400, 100, 50, 30));
    let lines = generator.generate_lead_lines(&[a, b]);
    // The line leaving a's right edge runs from 190 until b's left edge less
    // the margin: 400 - 10.
    assert_eq!(lines[3].start, Point::new(190, 115));
    assert_eq!(lines[3].end, Point::new(390, 115));
}
