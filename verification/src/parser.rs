//! The dependency resolver and the decisions of the loader.

pub mod generator;
pub mod graph;
pub mod loader;
pub mod order;
pub mod resolution;
