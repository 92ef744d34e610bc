//! Structure of a complete Event Model diagram: metadata, swimlanes,
//! slices, the entity registry and the connectors between entities.

use super::entities::EntityId;
use super::registry::{EntityRegistry, KindMarker};
use crate::infrastructure::types::{NonEmpty, NonEmptyString, NonNegativeInt};
use vstd::prelude::*;

verus! {

/// A complete Event Model diagram with entities and layout information.
#[derive(Debug, Clone)]
pub struct EventModelDiagram<W: KindMarker, C: KindMarker, E: KindMarker, P: KindMarker, Q: KindMarker, A: KindMarker> {
    /// Diagram metadata including title and description.
    pub metadata: DiagramMetadata,
    /// Horizontal swimlanes organizing entities.
    pub swimlanes: NonEmpty<Swimlane>,
    /// Registry of all entities in the diagram.
    pub entities: EntityRegistry<W, C, E, P, Q, A>,
    /// Vertical slices defining feature boundaries.
    pub slices: NonEmpty<Slice>,
    /// Connections between entities.
    pub connectors: Vec<Connector>,
}

/// Metadata about the diagram.
#[derive(Debug, Clone)]
pub struct DiagramMetadata {
    /// Title of the diagram.
    pub title: DiagramTitle,
    /// Optional description of the diagram.
    pub description: Option<DiagramDescription>,
}

/// A horizontal swimlane grouping related entities.
#[derive(Debug, Clone)]
pub struct Swimlane {
    /// Unique identifier for the swimlane.
    pub id: SwimlaneId,
    /// Display name of the swimlane.
    pub name: SwimlaneName,
    /// Vertical position (0 = top).
    pub position: SwimlanePosition,
    /// Entity IDs contained in this swimlane.
    pub entities: Vec<EntityId>,
}

/// A vertical slice representing a feature or story.
#[derive(Debug, Clone)]
pub struct Slice {
    /// Unique identifier for the slice.
    pub id: SliceId,
    /// Display name of the slice.
    pub name: SliceName,
    /// Horizontal boundaries of the slice.
    pub boundaries: SliceBoundaries,
    /// Entity IDs contained in this slice.
    pub entities: NonEmpty<EntityId>,
    /// Connections drawn inside this slice.
    pub connections: Vec<Connector>,
    /// Optional acceptance criteria for the slice.
    pub acceptance_criteria: Option<AcceptanceCriteria>,
}

/// Horizontal boundaries of a slice.
#[derive(Debug, Clone)]
pub struct SliceBoundaries {
    /// Starting X coordinate.
    pub start_x: HorizontalPosition,
    /// Ending X coordinate.
    pub end_x: HorizontalPosition,
}

/// Acceptance criteria in Given-When-Then format.
#[derive(Debug, Clone)]
pub struct AcceptanceCriteria {
    /// Initial conditions.
    pub given: GivenCondition,
    /// Action performed.
    pub when: WhenAction,
    /// Expected outcomes.
    pub then: NonEmpty<ThenExpectation>,
}

/// Title of a diagram.
#[derive(Debug, PartialEq, Eq)]
pub struct DiagramTitle(NonEmptyString);

impl View for DiagramTitle {
    type V = Seq<char>;

    closed spec fn view(&self) -> Seq<char> {
        self.0@
    }
}

impl Clone for DiagramTitle {
    fn clone(&self) -> (r: Self)
        ensures
            r@ == self@,
    {
        DiagramTitle(self.0.clone())
    }
}

impl DiagramTitle {
    /// Wraps `value`.
    pub fn new(value: NonEmptyString) -> (r: Self)
        ensures
            r@ == value@,
    {
        DiagramTitle(value)
    }

    /// The wrapped value.
    pub fn into_inner(self) -> (r: NonEmptyString)
        ensures
            r@ == self@,
    {
        self.0
    }
}

/// Description of a diagram.
#[derive(Debug)]
pub struct DiagramDescription(NonEmptyString);

impl View for DiagramDescription {
    type V = Seq<char>;

    closed spec fn view(&self) -> Seq<char> {
        self.0@
    }
}

impl Clone for DiagramDescription {
    fn clone(&self) -> (r: Self)
        ensures
            r@ == self@,
    {
        DiagramDescription(self.0.clone())
    }
}

impl DiagramDescription {
    /// Wraps `value`.
    pub fn new(value: NonEmptyString) -> (r: Self)
        ensures
            r@ == value@,
    {
        DiagramDescription(value)
    }

    /// The wrapped value.
    pub fn into_inner(self) -> (r: NonEmptyString)
        ensures
            r@ == self@,
    {
        self.0
    }
}

/// Unique identifier for a swimlane.
#[derive(Debug, PartialEq, Eq, Hash)]
pub struct SwimlaneId(NonEmptyString);

impl View for SwimlaneId {
    type V = Seq<char>;

    closed spec fn view(&self) -> Seq<char> {
        self.0@
    }
}

impl Clone for SwimlaneId {
    fn clone(&self) -> (r: Self)
        ensures
            r@ == self@,
    {
        SwimlaneId(self.0.clone())
    }
}

impl SwimlaneId {
    /// Wraps `value`.
    pub fn new(value: NonEmptyString) -> (r: Self)
        ensures
            r@ == value@,
    {
        SwimlaneId(value)
    }

    /// The wrapped value.
    pub fn into_inner(self) -> (r: NonEmptyString)
        ensures
            r@ == self@,
    {
        self.0
    }
}

/// Display name of a swimlane.
#[derive(Debug)]
pub struct SwimlaneName(NonEmptyString);

impl View for SwimlaneName {
    type V = Seq<char>;

    closed spec fn view(&self) -> Seq<char> {
        self.0@
    }
}

impl Clone for SwimlaneName {
    fn clone(&self) -> (r: Self)
        ensures
            r@ == self@,
    {
        SwimlaneName(self.0.clone())
    }
}

impl SwimlaneName {
    /// Wraps `value`.
    pub fn new(value: NonEmptyString) -> (r: Self)
        ensures
            r@ == value@,
    {
        SwimlaneName(value)
    }

    /// The wrapped value.
    pub fn into_inner(self) -> (r: NonEmptyString)
        ensures
            r@ == self@,
    {
        self.0
    }
}

/// Vertical position of a swimlane.
#[derive(Debug, Clone, Copy, PartialEq, Eq, Structural, PartialOrd, Ord)]
pub struct SwimlanePosition(NonNegativeInt);

impl View for SwimlanePosition {
    type V = u32;

    closed spec fn view(&self) -> u32 {
        self.0@
    }
}

impl SwimlanePosition {
    /// Wraps `value`.
    pub fn new(value: NonNegativeInt) -> (r: Self)
        ensures
            r@ == value@,
    {
        SwimlanePosition(value)
    }

    /// The wrapped value.
    pub fn into_inner(self) -> (r: NonNegativeInt)
        ensures
            r@ == self@,
    {
        self.0
    }
}

/// Unique identifier for a slice.
#[derive(Debug, PartialEq, Eq, Hash)]
pub struct SliceId(NonEmptyString);

impl View for SliceId {
    type V = Seq<char>;

    closed spec fn view(&self) -> Seq<char> {
        self.0@
    }
}

impl Clone for SliceId {
    fn clone(&self) -> (r: Self)
        ensures
            r@ == self@,
    {
        SliceId(self.0.clone())
    }
}

impl SliceId {
    /// Wraps `value`.
    pub fn new(value: NonEmptyString) -> (r: Self)
        ensures
            r@ == value@,
    {
        SliceId(value)
    }

    /// The wrapped value.
    pub fn into_inner(self) -> (r: NonEmptyString)
        ensures
            r@ == self@,
    {
        self.0
    }
}

/// Display name of a slice.
#[derive(Debug)]
pub struct SliceName(NonEmptyString);

impl View for SliceName {
    type V = Seq<char>;

    closed spec fn view(&self) -> Seq<char> {
        self.0@
    }
}

impl Clone for SliceName {
    fn clone(&self) -> (r: Self)
        ensures
            r@ == self@,
    {
        SliceName(self.0.clone())
    }
}

impl SliceName {
    /// Wraps `value`.
    pub fn new(value: NonEmptyString) -> (r: Self)
        ensures
            r@ == value@,
    {
        SliceName(value)
    }

    /// The wrapped value.
    pub fn into_inner(self) -> (r: NonEmptyString)
        ensures
            r@ == self@,
    {
        self.0
    }
}

/// Horizontal position in the diagram.
#[derive(Debug, Clone, Copy, PartialEq, Eq, Structural, PartialOrd, Ord)]
pub struct HorizontalPosition(NonNegativeInt);

impl View for HorizontalPosition {
    type V = u32;

    closed spec fn view(&self) -> u32 {
        self.0@
    }
}

impl HorizontalPosition {
    /// Wraps `value`.
    pub fn new(value: NonNegativeInt) -> (r: Self)
        ensures
            r@ == value@,
    {
        HorizontalPosition(value)
    }

    /// The wrapped value.
    pub fn into_inner(self) -> (r: NonNegativeInt)
        ensures
            r@ == self@,
    {
        self.0
    }
}

/// Given condition in acceptance criteria.
#[derive(Debug)]
pub struct GivenCondition(NonEmptyString);

impl View for GivenCondition {
    type V = Seq<char>;

    closed spec fn view(&self) -> Seq<char> {
        self.0@
    }
}

impl Clone for GivenCondition {
    fn clone(&self) -> (r: Self)
        ensures
            r@ == self@,
    {
        GivenCondition(self.0.clone())
    }
}

impl GivenCondition {
    /// Wraps `value`.
    pub fn new(value: NonEmptyString) -> (r: Self)
        ensures
            r@ == value@,
    {
        GivenCondition(value)
    }

    /// The wrapped value.
    pub fn into_inner(self) -> (r: NonEmptyString)
        ensures
            r@ == self@,
    {
        self.0
    }
}

/// When action in acceptance criteria.
#[derive(Debug)]
pub struct WhenAction(NonEmptyString);

impl View for WhenAction {
    type V = Seq<char>;

    closed spec fn view(&self) -> Seq<char> {
        self.0@
    }
}

impl Clone for WhenAction {
    fn clone(&self) -> (r: Self)
        ensures
            r@ == self@,
    {
        WhenAction(self.0.clone())
    }
}

impl WhenAction {
    /// Wraps `value`.
    pub fn new(value: NonEmptyString) -> (r: Self)
        ensures
            r@ == value@,
    {
        WhenAction(value)
    }

    /// The wrapped value.
    pub fn into_inner(self) -> (r: NonEmptyString)
        ensures
            r@ == self@,
    {
        self.0
    }
}

/// Then expectation in acceptance criteria.
#[derive(Debug)]
pub struct ThenExpectation(NonEmptyString);

impl View for ThenExpectation {
    type V = Seq<char>;

    closed spec fn view(&self) -> Seq<char> {
        self.0@
    }
}

impl Clone for ThenExpectation {
    fn clone(&self) -> (r: Self)
        ensures
            r@ == self@,
    {
        ThenExpectation(self.0.clone())
    }
}

impl ThenExpectation {
    /// Wraps `value`.
    pub fn new(value: NonEmptyString) -> (r: Self)
        ensures
            r@ == value@,
    {
        ThenExpectation(value)
    }

    /// The wrapped value.
    pub fn into_inner(self) -> (r: NonEmptyString)
        ensures
            r@ == self@,
    {
        self.0
    }
}

/// A connection between two entities.
#[derive(Debug, Clone)]
pub struct Connector {
    /// Source entity ID.
    pub from: EntityId,
    /// Target entity ID.
    pub to: EntityId,
    /// Optional label for the connection.
    pub label: Option<ConnectorLabel>,
}

/// Label for a connector.
#[derive(Debug)]
pub struct ConnectorLabel(NonEmptyString);

impl View for ConnectorLabel {
    type V = Seq<char>;

    closed spec fn view(&self) -> Seq<char> {
        self.0@
    }
}

impl Clone for ConnectorLabel {
    fn clone(&self) -> (r: Self)
        ensures
            r@ == self@,
    {
        ConnectorLabel(self.0.clone())
    }
}

impl ConnectorLabel {
    /// Wraps `value`.
    pub fn new(value: NonEmptyString) -> (r: Self)
        ensures
            r@ == value@,
    {
        ConnectorLabel(value)
    }

    /// The wrapped value.
    pub fn into_inner(self) -> (r: NonEmptyString)
        ensures
            r@ == self@,
    {
        self.0
    }
}

} // verus!
