//! The core concepts of Event Modeling: commands, events, projections,
//! queries, automations and wireframes, and the diagrams built from them.
pub mod entities;
pub mod diagram;
pub mod registry;
pub mod converter;
pub mod yaml_types;
pub mod yaml_to_diagram_converter;
pub mod yaml_registry;
