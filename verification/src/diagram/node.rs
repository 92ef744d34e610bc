//! Identifiers of diagram nodes: an entity can appear several times in a
//! diagram, once per context, each appearance being a node.

use crate::event_model::entities::{EntityId, EntityType};
use vstd::prelude::*;

verus! {

/// Unique identifier for a diagram node.
#[derive(Debug, PartialEq, Eq, Hash)]
pub struct NodeId(String);

impl View for NodeId {
    type V = Seq<char>;

    closed spec fn view(&self) -> Seq<char> {
        self.0@
    }
}

impl Clone for NodeId {
    fn clone(&self) -> (r: Self)
        ensures
            r@ == self@,
    {
        NodeId(self.0.clone())
    }
}

/// The name of an entity type.
pub open spec fn kind_label(t: EntityType) -> Seq<char> {
    match t {
        EntityType::Wireframe => "Wireframe"@,
        EntityType::Command => "Command"@,
        EntityType::Event => "Event"@,
        EntityType::View => "View"@,
        EntityType::Projection => "Projection"@,
        EntityType::Query => "Query"@,
        EntityType::Automation => "Automation"@,
    }
}

/// The name of an entity type.
fn kind_label_of(t: EntityType) -> (r: &'static str)
    ensures
        r@ == kind_label(t),
{
    match t {
        EntityType::Wireframe => "Wireframe",
        EntityType::Command => "Command",
        EntityType::Event => "Event",
        EntityType::View => "View",
        EntityType::Projection => "Projection",
        EntityType::Query => "Query",
        EntityType::Automation => "Automation",
    }
}

impl NodeId {
    /// The identifier of the node for an entity in a context: the entity's
    /// type, id and the context, separated by colons.
    pub fn new(entity_ref: &EntityReference, context: &str) -> (r: Self)
        ensures
            r@ == kind_label(entity_ref.entity_type) + ":"@ + entity_ref.entity_id@ + ":"@ + context@,
    {
        let mut id = kind_label_of(entity_ref.entity_type).to_owned();
        id.append(":");
        let entity = entity_ref.entity_id.clone().into_inner();
        id.append(entity.as_str());
        id.append(":");
        id.append(context);
        NodeId(id)
    }

    /// The identifier's text.
    pub fn as_str(&self) -> (r: &str)
        ensures
            r@ == self@,
    {
        self.0.as_str()
    }
}

/// Reference to an entity in the model.
#[derive(Debug, PartialEq, Eq, Hash)]
pub struct EntityReference {
    /// Type of the entity.
    pub entity_type: EntityType,
    /// ID of the entity.
    pub entity_id: EntityId,
}

impl Clone for EntityReference {
    fn clone(&self) -> (r: Self)
        ensures
            r.entity_type == self.entity_type,
            r.entity_id@ == self.entity_id@,
    {
        EntityReference { entity_type: self.entity_type, entity_id: self.entity_id.clone() }
    }
}

/// A connection between two nodes in the diagram.
#[derive(Debug, Clone, PartialEq)]
pub struct NodeConnection {
    /// Source node ID.
    pub from: NodeId,
    /// Target node ID.
    pub to: NodeId,
    /// Optional label for the connection.
    pub label: Option<String>,
}

} // verus!
