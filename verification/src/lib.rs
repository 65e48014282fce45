//! Ordering of service and target units by their declared before/after
//! constraints.
//!
//! [`unit`] holds the data model of a unit, its validation rules and the
//! error taxonomy; [`parser`] holds the dependency resolver and the decisions
//! of the loader.

pub mod parser;
pub mod unit;

pub use parser::generator::{generate, generate_unit_list, load_and_generate};
pub use unit::errors::{GraphBuildError, UnitLoadError};
pub use unit::types::{
    DependencySection, ServiceSection, TargetSection, TodoSection, UnitFile, UnitSection, UnitType,
};
