//! Connector routing for Event Model diagrams: where connections attach to
//! the entities they join.
pub mod event_model_router;
