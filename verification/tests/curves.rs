use event_modeler::diagram::routing::{Point, RoutePath};
use event_modeler::diagram::svg::curves::{
    calculate_avoidance_curve, find_entities_in_path, is_entity_in_line_path, render_curved_arrow, render_routed_path,
};
use event_modeler::infrastructure::types::NonEmpty;
use event_modeler::routing::event_model_router::EntityPosition;

fn entity(x: u32, y: u32, width: u32, height: u32, slice_index: usize) -> EntityPosition {
    EntityPosition { x, y, width, height, slice_index }
}

#[test]
fn horizontal_line_meets_entity_it_crosses() {
    assert!(is_entity_in_line_path(0, 50, 200, 50, &entity(80, 30, 40, 40, 0)));
    assert!(!is_entity_in_line_path(0, 50, 200, 50, &entity(80, 100, 40, 40, 0)));
}

#[test]
fn steep_line_meets_entity_it_crosses() {
    assert!(is_entity_in_line_path(50, 0, 60, 200, &entity(30, 80, 40, 40, 0)));
}

#[test]
fn line_of_no_length_meets_nothing() {
    assert!(!is_entity_in_line_path(5, 5, 5, 5, &entity(0, 0, 10, 10, 0)));
}

#[test]
fn obstacles_leave_out_endpoints_and_distant_entities() {
    let from = entity(0, 30, 100, 40, 0);
    let to = entity(400, 30, 100, 40, 1);
    let blocker = entity(200, 20, 50, 40, 0);
    let far = entity(200, 300, 50, 40, 0);
    let positions = vec![
        ("from".to_string(), from),
        ("blocker".to_string(), blocker),
        ("far".to_string(), far),
        ("to".to_string(), to),
    ];
    let found = find_entities_in_path(100, 50, 500, 50, &from, &to, &positions);
    assert_eq!(found, vec![blocker]);
}

#[test]
fn avoidance_goes_below_an_obstacle_level_with_the_middle() {
    let a = entity(0, 0, 10, 10, 0);
    let obstacles = vec![entity(100, 30, 100, 40, 0)];
    assert_eq!(calculate_avoidance_curve(0, 50, 300, 50, &a, &a, &obstacles), (100, 100, 200, 100));
}

#[test]
fn avoidance_goes_above_an_obstacle_below_the_middle() {
    let a = entity(0, 0, 10, 10, 0);
    let obstacles = vec![entity(100, 40, 100, 40, 0)];
    assert_eq!(calculate_avoidance_curve(0, 50, 300, 50, &a, &a, &obstacles), (100, 10, 200, 10));
}

#[test]
fn avoidance_without_obstacles_is_a_gentle_curve() {
    let a = entity(0, 0, 10, 10, 0);
    assert_eq!(calculate_avoidance_curve(0, 50, 300, 50, &a, &a, &vec![]), (100, 50, 200, 50));
}

#[test]
fn avoidance_of_vertical_lines_goes_to_the_side() {
    let a = entity(0, 0, 10, 10, 0);
    assert_eq!(
        calculate_avoidance_curve(50, 0, 50, 300, &a, &a, &vec![entity(30, 100, 40, 100, 0)]),
        (100, 100, 100, 200)
    );
    assert_eq!(
        calculate_avoidance_curve(50, 0, 50, 300, &a, &a, &vec![entity(10, 100, 30, 100, 0)]),
        (70, 100, 70, 200)
    );
}

#[test]
fn avoidance_picks_the_obstacle_nearest_the_middle() {
    let a = entity(0, 0, 10, 10, 0);
    let obstacles = vec![entity(0, 30, 20, 40, 0), entity(140, 30, 20, 40, 0), entity(140, 300, 20, 40, 0)];
    assert_eq!(calculate_avoidance_curve(0, 50, 300, 50, &a, &a, &obstacles), (100, 100, 200, 100));
}

#[test]
fn avoidance_picks_the_first_of_equally_near_obstacles() {
    let a = entity(0, 0, 10, 10, 0);
    let obstacles = vec![entity(100, 20, 20, 60, 0), entity(180, 30, 20, 40, 0)];
    assert_eq!(calculate_avoidance_curve(0, 50, 300, 50, &a, &a, &obstacles), (100, 110, 200, 110));
}

#[test]
fn curved_arrow_swings_around_an_obstacle() {
    let from = entity(0, 30, 100, 40, 0);
    let to = entity(400, 30, 100, 40, 1);
    let positions = vec![
        ("from".to_string(), from),
        ("blocker".to_string(), entity(200, 20, 50, 40, 0)),
        ("far".to_string(), entity(200, 300, 50, 40, 0)),
        ("to".to_string(), to),
    ];
    assert_eq!(
        render_curved_arrow(&from, &to, &positions),
        "  <path d=\"M 100 50 C 233 90, 367 50, 500 50\" stroke=\"#333333\" stroke-width=\"2\" fill=\"none\" marker-end=\"url(#arrowhead)\" />\n"
    );
}

#[test]
fn curved_arrow_across_slices_in_one_row_is_gentle() {
    let from = entity(0, 30, 100, 40, 0);
    let to = entity(400, 30, 100, 40, 1);
    let positions = vec![("from".to_string(), from), ("to".to_string(), to)];
    assert_eq!(
        render_curved_arrow(&from, &to, &positions),
        "  <path d=\"M 100 50 C 233 50, 367 50, 500 50\" stroke=\"#333333\" stroke-width=\"2\" fill=\"none\" marker-end=\"url(#arrowhead)\" />\n"
    );
}

#[test]
fn curved_arrow_straight_down_a_slice_bulges_out() {
    assert_eq!(
        render_curved_arrow(&entity(0, 0, 100, 50, 0), &entity(0, 200, 100, 50, 0), &vec![]),
        "  <path d=\"M 50 50 C 110 70, 50 230, 50 250\" stroke=\"#333333\" stroke-width=\"2\" fill=\"none\" marker-end=\"url(#arrowhead)\" />\n"
    );
}

#[test]
fn curved_arrow_across_slices_and_rows_is_diagonal() {
    assert_eq!(
        render_curved_arrow(&entity(0, 0, 100, 50, 0), &entity(300, 200, 100, 50, 1), &vec![]),
        "  <path d=\"M 100 25 C 250 25, 380 225, 400 225\" stroke=\"#333333\" stroke-width=\"2\" fill=\"none\" marker-end=\"url(#arrowhead)\" />\n"
    );
}

#[test]
fn curved_arrow_back_to_an_earlier_slice_loops() {
    assert_eq!(
        render_curved_arrow(&entity(300, 0, 100, 50, 2), &entity(0, 0, 100, 50, 1), &vec![]),
        "  <path d=\"M 300 25 C 260 25, 40 25, 0 25\" stroke=\"#333333\" stroke-width=\"2\" fill=\"none\" marker-end=\"url(#arrowhead)\" />\n"
    );
}

#[test]
fn routed_path_becomes_an_arrow() {
    let nodes = NonEmpty::from_head_and_tail(Point { x: 0, y: 0 }, vec![Point { x: 10, y: 0 }, Point { x: 10, y: 20 }]);
    let route = RoutePath::new(nodes, 30);
    assert_eq!(
        render_routed_path(&route),
        "  <path d=\"M 0 0 L 10 0 L 10 20\" fill=\"none\" stroke=\"#333333\" stroke-width=\"2\" marker-end=\"url(#arrowhead)\" />\n"
    );
}
