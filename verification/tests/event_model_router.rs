use event_modeler::diagram::routing::Point;
use event_modeler::event_model::yaml_types::{self, EntityReference};
use event_modeler::infrastructure::types::NonEmptyString;
use event_modeler::routing::event_model_router::{
    calculate_connection_points, extract_entity_name, find_entity_position, EntityPosition,
};

fn position(x: u32, y: u32, slice_index: usize) -> EntityPosition {
    EntityPosition { x, y, width: 120, height: 60, slice_index }
}

#[test]
fn test_extract_entity_name() {
    let view_path =
        yaml_types::ViewPath::new(NonEmptyString::parse("LoginView".to_string()).unwrap());
    let view_ref = EntityReference::View(view_path);
    assert_eq!(extract_entity_name(&view_ref), "LoginView");

    let cmd_name =
        yaml_types::CommandName::new(NonEmptyString::parse("LoginCommand".to_string()).unwrap());
    let cmd_ref = EntityReference::Command(cmd_name);
    assert_eq!(extract_entity_name(&cmd_ref), "LoginCommand");
}

#[test]
fn view_path_names_the_view_before_the_first_dot() {
    let view_path = yaml_types::ViewPath::new(
        NonEmptyString::parse("LoginScreen.Form.Submit".to_string()).unwrap(),
    );
    assert_eq!(extract_entity_name(&EntityReference::View(view_path)), "LoginScreen");
}

#[test]
fn test_calculate_connection_points_horizontal() {
    let from = position(100, 100, 0);
    let to = position(300, 100, 0);

    let (from_point, to_point) = calculate_connection_points(&from, &to);

    assert_eq!(from_point.x, 220);
    assert_eq!(from_point.y, 130);
    assert_eq!(to_point.x, 300);
    assert_eq!(to_point.y, 130);
}

#[test]
fn test_calculate_connection_points_vertical() {
    let from = position(100, 100, 0);
    let to = position(100, 300, 0);

    let (from_point, to_point) = calculate_connection_points(&from, &to);

    assert_eq!(from_point.x, 160);
    assert_eq!(from_point.y, 160);
    assert_eq!(to_point.x, 160);
    assert_eq!(to_point.y, 300);
}

#[test]
fn connection_points_going_left_and_up() {
    let from = position(300, 100, 1);
    let to = position(100, 100, 0);
    assert_eq!(
        calculate_connection_points(&from, &to),
        (Point::new(300, 130), Point::new(220, 130))
    );
    let below = position(100, 300, 0);
    let above = position(100, 100, 0);
    assert_eq!(
        calculate_connection_points(&below, &above),
        (Point::new(160, 300), Point::new(160, 160))
    );
}

#[test]
fn test_find_entity_position_exact_match() {
    let positions = vec![("TestEntity_0".to_string(), position(100, 100, 0))];

    let result = find_entity_position("TestEntity", 0, &positions);
    assert!(result.is_some());
    assert_eq!(result.unwrap().x, 100);
}

#[test]
fn test_find_entity_position_closest_match() {
    let positions = vec![
        ("TestEntity_1".to_string(), position(100, 100, 1)),
        ("TestEntity_3".to_string(), position(300, 100, 3)),
    ];

    let result = find_entity_position("TestEntity", 2, &positions);
    assert!(result.is_some());
}

#[test]
fn nearest_instance_wins_and_first_breaks_ties() {
    let positions = vec![
        ("Other_2".to_string(), position(1, 1, 2)),
        ("TestEntity_5".to_string(), position(500, 100, 5)),
        ("TestEntity_1".to_string(), position(100, 100, 1)),
        ("TestEntity_3".to_string(), position(300, 100, 3)),
    ];
    assert_eq!(find_entity_position("TestEntity", 2, &positions).unwrap().x, 100);
    assert_eq!(find_entity_position("TestEntity", 4, &positions).unwrap().x, 500);
    assert!(find_entity_position("Missing", 0, &positions).is_none());
}
