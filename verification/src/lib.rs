//! Geometry and bookkeeping core for a small agent-steering prototype.
//!
//! The library owns the engine-independent logic of the prototype: steering
//! agents toward ordered destinations, click picking, destination markers,
//! zone membership, and an orthographic camera with pan and zoom.  All
//! coordinates are integer world units; a rendering shell converts them to
//! whatever number format its drawing layer wants.

pub mod agent;
pub mod camera;
pub mod errors;
pub mod geom;
pub mod ui;
pub mod world;
pub mod zone;
