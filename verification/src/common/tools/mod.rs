//! The local tools: workspace files, the three memory layers, and the
//! registry that names and dispatches them.
pub mod files;
pub mod memory;
pub mod registry;
