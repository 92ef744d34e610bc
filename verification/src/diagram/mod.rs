//! Diagram generation: from a YAML domain model to a diagram and its SVG
//! rendering, with the layout types and routing geometry it uses.

use crate::event_model::yaml_types;
use vstd::prelude::*;

pub mod builder;
pub mod layout;
pub mod layout_types;
pub mod svg;
pub mod node;
pub mod routing;
pub mod grid_routing;

pub use self::builder::EventModelDiagram;
pub use self::svg::render_to_svg;

verus! {

/// Errors that can occur during diagram generation.
#[derive(Debug)]
pub enum DiagramError {
    /// Error occurred during SVG rendering.
    SvgError(String),
}

impl DiagramError {
    /// The error message.
    pub fn message(&self) -> (r: String)
        ensures
            self matches DiagramError::SvgError(s) && r@ == "SVG rendering error: "@ + s@,
    {
        match self {
            DiagramError::SvgError(s) => {
                let mut m = "SVG rendering error: ".to_owned();
                m.append(s.as_str());
                m
            },
        }
    }
}

/// Builds the diagram of a YAML domain model; this never fails.
pub fn build_diagram_from_domain(model: yaml_types::YamlEventModel) -> (r: Result<EventModelDiagram, DiagramError>)
    ensures
        r matches Ok(d) && d.holds(model),
{
    EventModelDiagram::from_yaml_model(model)
}

} // verus!
