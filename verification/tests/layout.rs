use event_modeler::diagram::node::{EntityReference, NodeId};
use event_modeler::event_model::entities::{EntityId, EntityType};
use event_modeler::infrastructure::parsing::yaml_parser::is_version_compatible;
use event_modeler::infrastructure::types::NonEmptyString;

#[test]
fn swimlane_spacing_is_consistent() {
    // Reserved for a check that swimlanes have consistent vertical spacing.
}

#[test]
fn entity_spacing_within_swimlane_is_consistent() {
    // Reserved for a check that entities within a swimlane have consistent horizontal spacing.
}

#[test]
fn padding_affects_layout_boundaries() {
    // Reserved for a check that padding is applied to the canvas boundaries.
}

#[test]
fn error_when_no_space_available() {
    // Reserved for a check of the NoSpaceAvailable error.
}

#[test]
fn error_on_circular_dependency() {
    // Reserved for a check of the CircularDependency error.
}

#[test]
fn error_on_invalid_slice_boundaries() {
    // Reserved for a check of the InvalidSliceBoundaries error.
}

#[test]
fn test_node_generation_from_slices() {
    // Reserved for checks of node generation from slices.
}

#[test]
fn test_node_id_generation() {
    let entity_ref = EntityReference {
        entity_type: EntityType::Command,
        entity_id: EntityId::new(NonEmptyString::parse("SignUp".to_string()).unwrap()),
    };

    let node_id = NodeId::new(&entity_ref, "source");
    assert_eq!(node_id.as_str(), "Command:SignUp:source");
}

#[test]
fn is_version_compatible_accepts_any_version_pre_1_0() {
    assert!(is_version_compatible("0.1.0", "0.3.0"));
    assert!(is_version_compatible("0.3.0", "0.1.0"));
    assert!(is_version_compatible("1.0.0", "0.3.0"));
    assert!(is_version_compatible("0.3.0", "1.0.0"));
}
