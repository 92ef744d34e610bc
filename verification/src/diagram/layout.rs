//! Value types of the diagram layout: canvas size, routing style and
//! layout errors.

use crate::event_model::entities::EntityId;
use crate::infrastructure::types::PositiveInt;
use vstd::prelude::*;

pub mod dependencies;

verus! {

/// Width of the canvas in pixels.
#[derive(Debug, Clone, Copy, PartialEq, Eq, Structural, PartialOrd, Ord)]
pub struct CanvasWidth(PositiveInt);

impl View for CanvasWidth {
    type V = u32;

    closed spec fn view(&self) -> u32 {
        self.0@
    }
}

impl CanvasWidth {
    /// Wraps `value`.
    pub fn new(value: PositiveInt) -> (r: Self)
        ensures
            r@ == value@,
    {
        CanvasWidth(value)
    }

    /// The wrapped value.
    pub fn into_inner(self) -> (r: PositiveInt)
        ensures
            r@ == self@,
    {
        self.0
    }
}

/// Height of the canvas in pixels.
#[derive(Debug, Clone, Copy, PartialEq, Eq, Structural, PartialOrd, Ord)]
pub struct CanvasHeight(PositiveInt);

impl View for CanvasHeight {
    type V = u32;

    closed spec fn view(&self) -> u32 {
        self.0@
    }
}

impl CanvasHeight {
    /// Wraps `value`.
    pub fn new(value: PositiveInt) -> (r: Self)
        ensures
            r@ == value@,
    {
        CanvasHeight(value)
    }

    /// The wrapped value.
    pub fn into_inner(self) -> (r: PositiveInt)
        ensures
            r@ == self@,
    {
        self.0
    }
}

/// How connections are drawn.
#[derive(Debug, Clone, Copy, PartialEq, Eq, Structural)]
pub enum ConnectionRouting {
    /// Direct straight lines.
    Straight,
    /// Right-angle paths.
    Orthogonal,
    /// Smooth curved paths.
    Curved,
}

/// Errors that can occur during layout computation.
#[derive(Debug)]
pub enum LayoutError {
    /// Not enough space to place an entity.
    NoSpaceAvailable(String),
    /// Entities have circular dependencies.
    CircularDependency,
    /// Slice boundaries are invalid.
    InvalidSliceBoundaries,
    /// Entity reference not found in registry.
    InvalidEntityReference(EntityId),
}

} // verus!
