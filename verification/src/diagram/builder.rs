//! The diagram of a YAML domain model: what the renderer draws.

use super::DiagramError;
use crate::event_model::yaml_types;
use crate::infrastructure::types::{NonEmpty, NonEmptyString};
use vstd::prelude::*;

verus! {

/// A complete event model diagram, built from a YAML domain model.
#[derive(Debug, Clone)]
pub struct EventModelDiagram {
    workflow_title: NonEmptyString,
    swimlanes: NonEmpty<yaml_types::Swimlane>,
    slices: Vec<yaml_types::Slice>,
    views: Vec<(yaml_types::ViewName, yaml_types::ViewDefinition)>,
    commands: Vec<(yaml_types::CommandName, yaml_types::CommandDefinition)>,
    events: Vec<(yaml_types::EventName, yaml_types::EventDefinition)>,
    projections: Vec<(yaml_types::ProjectionName, yaml_types::ProjectionDefinition)>,
    queries: Vec<(yaml_types::QueryName, yaml_types::QueryDefinition)>,
    automations: Vec<(yaml_types::AutomationName, yaml_types::AutomationDefinition)>,
}

impl EventModelDiagram {
    /// The title shown at the top.
    pub closed spec fn title_text(&self) -> Seq<char> {
        self.workflow_title@
    }

    /// The swimlanes, in order.
    pub closed spec fn lanes(&self) -> Seq<yaml_types::Swimlane> {
        self.swimlanes@
    }

    /// The slices, in order.
    pub closed spec fn slice_seq(&self) -> Seq<yaml_types::Slice> {
        self.slices@
    }

    /// The views.
    pub closed spec fn view_seq(&self) -> Seq<(yaml_types::ViewName, yaml_types::ViewDefinition)> {
        self.views@
    }

    /// The commands.
    pub closed spec fn command_seq(&self) -> Seq<(yaml_types::CommandName, yaml_types::CommandDefinition)> {
        self.commands@
    }

    /// The events.
    pub closed spec fn event_seq(&self) -> Seq<(yaml_types::EventName, yaml_types::EventDefinition)> {
        self.events@
    }

    /// The projections.
    pub closed spec fn projection_seq(&self) -> Seq<(yaml_types::ProjectionName, yaml_types::ProjectionDefinition)> {
        self.projections@
    }

    /// The queries.
    pub closed spec fn query_seq(&self) -> Seq<(yaml_types::QueryName, yaml_types::QueryDefinition)> {
        self.queries@
    }

    /// The automations.
    pub closed spec fn automation_seq(&self) -> Seq<(yaml_types::AutomationName, yaml_types::AutomationDefinition)> {
        self.automations@
    }

    /// The diagram shows `model`: its workflow as title, its swimlanes,
    /// one slice per named slice with its connections, and its entities.
    pub open spec fn holds(&self, model: yaml_types::YamlEventModel) -> bool {
        &&& self.title_text() == model.workflow@
        &&& self.lanes() == model.swimlanes@
        &&& self.slice_seq().len() == model.slices@.len()
        &&& forall|i: int| 0 <= i < model.slices@.len() ==> (#[trigger] self.slice_seq()[i]).name == model.slices@[i].0
            && self.slice_seq()[i].connections == model.slices@[i].1
        &&& self.view_seq() == model.views@
        &&& self.command_seq() == model.commands@
        &&& self.event_seq() == model.events@
        &&& self.projection_seq() == model.projections@
        &&& self.query_seq() == model.queries@
        &&& self.automation_seq() == model.automations@
    }

    /// Builds the diagram of a YAML domain model; this never fails.
    pub fn from_yaml_model(model: yaml_types::YamlEventModel) -> (r: Result<Self, DiagramError>)
        ensures
            r matches Ok(d) && d.holds(model),
    {
        let ghost m = model;
        let yaml_types::YamlEventModel {
            version: _,
            workflow,
            swimlanes,
            events,
            commands,
            views,
            projections,
            queries,
            automations,
            slices: named,
        } = model;
        let mut named = named;
        let mut slices: Vec<yaml_types::Slice> = Vec::new();
        let n = named.len();
        let mut i: usize = 0;
        while named.len() > 0
            invariant
                i + named@.len() == n,
                n == m.slices@.len(),
                forall|k: int| 0 <= k < named@.len() ==> #[trigger] named@[k] == m.slices@[i + k],
                slices@.len() == i,
                forall|k: int| 0 <= k < i ==> (#[trigger] slices@[k]).name == m.slices@[k].0
                    && slices@[k].connections == m.slices@[k].1,
            decreases named@.len(),
        {
            let (name, connections) = named.remove(0);
            slices.push(yaml_types::Slice { name, connections });
            i += 1;
        }
        Ok(
            EventModelDiagram {
                workflow_title: workflow.into_inner(),
                swimlanes,
                slices,
                views,
                commands,
                events,
                projections,
                queries,
                automations,
            },
        )
    }

    /// The workflow title.
    pub fn workflow_title(&self) -> (r: &NonEmptyString)
        ensures
            r@ == self.title_text(),
    {
        &self.workflow_title
    }

    /// The swimlanes.
    pub fn swimlanes(&self) -> (r: &NonEmpty<yaml_types::Swimlane>)
        ensures
            r@ == self.lanes(),
    {
        &self.swimlanes
    }

    /// The slices.
    pub fn slices(&self) -> (r: &[yaml_types::Slice])
        ensures
            r@ == self.slice_seq(),
    {
        self.slices.as_slice()
    }

    /// The views.
    pub fn views(&self) -> (r: &Vec<(yaml_types::ViewName, yaml_types::ViewDefinition)>)
        ensures
            r@ == self.view_seq(),
    {
        &self.views
    }

    /// The commands.
    pub fn commands(&self) -> (r: &Vec<(yaml_types::CommandName, yaml_types::CommandDefinition)>)
        ensures
            r@ == self.command_seq(),
    {
        &self.commands
    }

    /// The events.
    pub fn events(&self) -> (r: &Vec<(yaml_types::EventName, yaml_types::EventDefinition)>)
        ensures
            r@ == self.event_seq(),
    {
        &self.events
    }

    /// The projections.
    pub fn projections(&self) -> (r: &Vec<(yaml_types::ProjectionName, yaml_types::ProjectionDefinition)>)
        ensures
            r@ == self.projection_seq(),
    {
        &self.projections
    }

    /// The queries.
    pub fn queries(&self) -> (r: &Vec<(yaml_types::QueryName, yaml_types::QueryDefinition)>)
        ensures
            r@ == self.query_seq(),
    {
        &self.queries
    }

    /// The automations.
    pub fn automations(&self) -> (r: &Vec<(yaml_types::AutomationName, yaml_types::AutomationDefinition)>)
        ensures
            r@ == self.automation_seq(),
    {
        &self.automations
    }
}

} // verus!
