//! Debloating Android devices over the debug bridge: running bridge commands,
//! keeping track of attached devices, caching the package recommendation
//! list, and applying batches of package actions.

pub mod actions;
pub mod cache;
pub mod date;
pub mod executor;
pub mod gui;
pub mod orchestrator;
pub mod packages;
pub mod registry;
pub mod text;
