use event_modeler::diagram::routing::graph::{point_on_line, GraphError, NodeId, RoutingGraph};
use event_modeler::diagram::routing::pathfinding::{AStarPathfinder, DijkstraPathfinder, GraphPath};
use event_modeler::diagram::routing::Point;
use event_modeler::infrastructure::types::NonEmpty;

#[test]
fn test_graph_add_node() {
    let mut graph = RoutingGraph::new();
    let pos1 = Point::new(10, 20);
    let pos2 = Point::new(30, 20);

    let id1 = graph.add_node(pos1);
    let id2 = graph.add_node(pos2);

    assert_ne!(id1, id2);
    assert_eq!(graph.node_count(), 2);

    // Adding same position returns same ID
    let id1_again = graph.add_node(pos1);
    assert_eq!(id1, id1_again);
    assert_eq!(graph.node_count(), 2);
}

#[test]
fn test_graph_add_edge() {
    let mut graph = RoutingGraph::new();
    let pos1 = Point::new(10, 20);
    let pos2 = Point::new(30, 20);

    let id1 = graph.add_node(pos1);
    let id2 = graph.add_node(pos2);

    assert!(graph.add_edge(id1, id2).is_ok());
    assert_eq!(graph.edge_count(), 1);

    // Check edges exist in both directions
    let edges1 = graph.get_edges(id1).unwrap();
    assert_eq!(edges1.len(), 1);
    assert_eq!(edges1[0].destination, id2);
    assert_eq!(edges1[0].weight, 20); // Manhattan distance

    let edges2 = graph.get_edges(id2).unwrap();
    assert_eq!(edges2.len(), 1);
    assert_eq!(edges2[0].destination, id1);
}

#[test]
fn test_point_on_line() {
    let line_start = Point::new(10, 20);
    let line_end = Point::new(30, 20);

    // Point on line
    assert!(point_on_line(Point::new(20, 20), line_start, line_end));
    assert!(point_on_line(Point::new(10, 20), line_start, line_end));
    assert!(point_on_line(Point::new(30, 20), line_start, line_end));

    // Point not on line
    assert!(!point_on_line(Point::new(20, 30), line_start, line_end));
    assert!(!point_on_line(Point::new(40, 20), line_start, line_end));
}

#[test]
fn add_edge_to_unknown_node_is_refused() {
    let mut graph = RoutingGraph::new();
    let a = graph.add_node(Point::new(0, 0));
    let missing = NodeId::new(7);
    assert_eq!(graph.add_edge(a, missing), Err(GraphError::NodeNotFound(missing)));
    assert_eq!(graph.edge_count(), 0);
}

#[test]
fn test_dijkstra_simple_path() {
    let mut graph = RoutingGraph::new();

    // Create a simple path: A -> B -> C
    let a = graph.add_node(Point::new(0, 0));
    let b = graph.add_node(Point::new(10, 0));
    let c = graph.add_node(Point::new(20, 0));

    graph.add_edge(a, b).unwrap();
    graph.add_edge(b, c).unwrap();

    // Find path from A to C
    let path = DijkstraPathfinder::find_path(&graph, a, c).unwrap();
    assert_eq!(path.nodes.len(), 3);
    assert_eq!(path.total_cost, 20); // 10 + 10
}

#[test]
fn test_dijkstra_shortest_path() {
    let mut graph = RoutingGraph::new();

    let a = graph.add_node(Point::new(0, 10));
    let b = graph.add_node(Point::new(10, 20));
    let c = graph.add_node(Point::new(10, 0));
    let d = graph.add_node(Point::new(20, 10));

    // A->B->D has cost 20+20=40
    graph.add_edge(a, b).unwrap();
    graph.add_edge(b, d).unwrap();

    // A->C->D has cost 20+20=40 (same cost)
    graph.add_edge(a, c).unwrap();
    graph.add_edge(c, d).unwrap();

    // Both paths should work
    let path = DijkstraPathfinder::find_path(&graph, a, d).unwrap();
    assert_eq!(path.nodes.len(), 3);
    assert_eq!(path.total_cost, 40);
}

#[test]
fn test_dijkstra_no_path() {
    let mut graph = RoutingGraph::new();

    // Create disconnected nodes
    let a = graph.add_node(Point::new(0, 0));
    let b = graph.add_node(Point::new(10, 0));

    // No edge between them
    let path = DijkstraPathfinder::find_path(&graph, a, b);
    assert!(path.is_none());
}

#[test]
fn test_dijkstra_same_start_goal() {
    let mut graph = RoutingGraph::new();
    let a = graph.add_node(Point::new(0, 0));

    let path = DijkstraPathfinder::find_path(&graph, a, a).unwrap();
    assert_eq!(path.nodes.len(), 1);
    assert_eq!(path.total_cost, 0);
}

#[test]
fn dijkstra_prefers_cheaper_detour() {
    let mut graph = RoutingGraph::new();
    let a = graph.add_node(Point::new(0, 0));
    let far = graph.add_node(Point::new(0, 100));
    let b = graph.add_node(Point::new(10, 0));
    let c = graph.add_node(Point::new(20, 0));
    let e = graph.add_node(Point::new(20, 50));
    // a -> far -> e costs 100 + 70; a -> b -> c -> e costs 10 + 10 + 50.
    graph.add_edge(a, far).unwrap();
    graph.add_edge(far, e).unwrap();
    graph.add_edge(a, b).unwrap();
    graph.add_edge(b, c).unwrap();
    graph.add_edge(c, e).unwrap();
    let path = DijkstraPathfinder::find_path(&graph, a, e).unwrap();
    let ids: Vec<NodeId> = path.nodes.iter().into_iter().copied().collect();
    assert_eq!(ids, vec![a, b, c, e]);
    assert_eq!(path.total_cost, 70);
}

#[test]
fn dijkstra_unknown_start_has_no_path() {
    let mut graph = RoutingGraph::new();
    let a = graph.add_node(Point::new(0, 0));
    assert!(DijkstraPathfinder::find_path(&graph, NodeId::new(5), a).is_none());
}

#[test]
fn astar_matches_dijkstra() {
    let mut graph = RoutingGraph::new();
    let a = graph.add_node(Point::new(0, 0));
    let b = graph.add_node(Point::new(0, 30));
    graph.add_edge(a, b).unwrap();
    let path = AStarPathfinder::find_path(&graph, a, b).unwrap();
    assert_eq!(path.total_cost, 30);
    assert_eq!(path.nodes.len(), 2);
}

#[test]
fn path_to_points_skips_unknown_nodes() {
    let mut graph = RoutingGraph::new();
    let a = graph.add_node(Point::new(1, 2));
    let b = graph.add_node(Point::new(3, 4));
    let path = GraphPath::new(NonEmpty::from_head_and_tail(a, vec![NodeId::new(9), b]), 4);
    let points = path.to_points(&graph).unwrap();
    let listed: Vec<Point> = points.iter().into_iter().copied().collect();
    assert_eq!(listed, vec![Point::new(1, 2), Point::new(3, 4)]);

    let nowhere = GraphPath::new(NonEmpty::singleton(NodeId::new(9)), 0);
    assert!(nowhere.to_points(&graph).is_none());
}

#[test]
fn dijkstra_follows_an_edge_of_large_weight() {
    let mut graph = RoutingGraph::new();
    let a = graph.add_node(Point::new(0, 0));
    let b = graph.add_node(Point::new(3_000_000_000, 0));
    graph.add_edge(a, b).unwrap();
    let path = DijkstraPathfinder::find_path(&graph, a, b).unwrap();
    assert_eq!(path.nodes.len(), 2);
    assert_eq!(path.total_cost, 3_000_000_000);
}
